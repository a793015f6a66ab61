use std::rc::Rc;
use vstd::prelude::*;

verus! {

/// An untyped data tree: the decoded body of a structured record.
///
/// Numbers keep the distinction the record format makes: a non-negative
/// integer, a negative integer, or any other number, which is kept as its
/// decimal text.  Containers are shared, so copying a tree is cheap and
/// exact.
#[derive(Clone, Debug)]
pub enum JsonValue {
    Null,
    Bool(bool),
    UInt(u64),
    NegInt(i64),
    Float(String),
    Str(String),
    Array(Rc<Vec<JsonValue>>),
    Object(Rc<Vec<(String, JsonValue)>>),
}

/// The value stored under `key` among `entries`; the first entry wins.
pub open spec fn field_in(entries: Seq<(String, JsonValue)>, key: Seq<char>) -> Option<JsonValue>
    decreases entries.len(),
{
    if entries.len() == 0 {
        None
    } else if entries[0].0@ == key {
        Some(entries[0].1)
    } else {
        field_in(entries.drop_first(), key)
    }
}

/// The text held by a string node.
pub open spec fn text_of(v: Option<JsonValue>) -> Option<Seq<char>> {
    match v {
        Some(JsonValue::Str(s)) => Some(s@),
        _ => None,
    }
}

/// The value held by a non-negative integer node.
pub open spec fn uint_of(v: Option<JsonValue>) -> Option<u64> {
    match v {
        Some(JsonValue::UInt(n)) => Some(n),
        _ => None,
    }
}

/// The value held by a boolean node.
pub open spec fn bool_of(v: Option<JsonValue>) -> Option<bool> {
    match v {
        Some(JsonValue::Bool(b)) => Some(b),
        _ => None,
    }
}

/// The value of a 32-bit count node: a non-negative integer that fits in
/// 32 bits; any other node, or a larger integer, gives no count.
pub open spec fn count_of(v: Option<JsonValue>) -> Option<u32> {
    match uint_of(v) {
        Some(n) => if n <= u32::MAX {
            Some(n as u32)
        } else {
            None
        },
        None => None,
    }
}

proof fn lemma_field_in_step(entries: Seq<(String, JsonValue)>, i: int, key: Seq<char>)
    requires
        0 <= i < entries.len(),
    ensures
        field_in(entries.subrange(i, entries.len() as int), key) == if entries[i].0@ == key {
            Some(entries[i].1)
        } else {
            field_in(entries.subrange(i + 1, entries.len() as int), key)
        },
{
    let s = entries.subrange(i, entries.len() as int);
    assert(s.drop_first() =~= entries.subrange(i + 1, entries.len() as int));
}

impl JsonValue {
    /// The member `key` of an object; nothing for any other node.
    pub open spec fn member(self, key: Seq<char>) -> Option<JsonValue> {
        match self {
            JsonValue::Object(m) => field_in(m@, key),
            _ => None,
        }
    }

    /// An object node over the given entries.
    pub fn object(entries: Vec<(String, JsonValue)>) -> (r: JsonValue)
        ensures
            r == JsonValue::Object(Rc::new(entries)),
    {
        JsonValue::Object(Rc::new(entries))
    }

    /// An array node over the given items.
    pub fn array(items: Vec<JsonValue>) -> (r: JsonValue)
        ensures
            r == JsonValue::Array(Rc::new(items)),
    {
        JsonValue::Array(Rc::new(items))
    }

    /// A copy of this tree, equal to it.
    pub fn duplicate(&self) -> (r: JsonValue)
        ensures
            r == *self,
    {
        match self {
            JsonValue::Null => JsonValue::Null,
            JsonValue::Bool(b) => JsonValue::Bool(*b),
            JsonValue::UInt(n) => JsonValue::UInt(*n),
            JsonValue::NegInt(n) => JsonValue::NegInt(*n),
            JsonValue::Float(s) => JsonValue::Float(s.clone()),
            JsonValue::Str(s) => JsonValue::Str(s.clone()),
            JsonValue::Array(items) => JsonValue::Array(Rc::clone(items)),
            JsonValue::Object(m) => JsonValue::Object(Rc::clone(m)),
        }
    }

    /// Looks up the member `key` of an object node.
    pub fn get(&self, key: &String) -> (r: Option<&JsonValue>)
        ensures
            r is Some == self.member(key@) is Some,
            r matches Some(v) ==> self.member(key@) == Some(*v),
    {
        match self {
            JsonValue::Object(m) => {
                let entries: &Vec<(String, JsonValue)> = &**m;
                let mut i: usize = 0;
                assert(entries@.subrange(0, entries.len() as int) =~= entries@);
                while i < entries.len()
                    invariant
                        0 <= i <= entries.len(),
                        self.member(key@) == field_in(entries@, key@),
                        field_in(entries@, key@) == field_in(
                            entries@.subrange(i as int, entries.len() as int),
                            key@,
                        ),
                    decreases entries.len() - i,
                {
                    proof {
                        lemma_field_in_step(entries@, i as int, key@);
                    }
                    if entries[i].0 == *key {
                        return Some(&entries[i].1);
                    }
                    i += 1;
                }
                None
            },
            _ => None,
        }
    }

    /// The text of a string node.
    pub fn as_str(&self) -> (r: Option<&String>)
        ensures
            r is Some == self is Str,
            r matches Some(s) ==> self == JsonValue::Str(*s),
    {
        match self {
            JsonValue::Str(s) => Some(s),
            _ => None,
        }
    }

    /// The value of a non-negative integer node.
    pub fn as_u64(&self) -> (r: Option<u64>)
        ensures
            r == uint_of(Some(*self)),
    {
        match self {
            JsonValue::UInt(n) => Some(*n),
            _ => None,
        }
    }

    /// The value of a boolean node.
    pub fn as_bool(&self) -> (r: Option<bool>)
        ensures
            r == bool_of(Some(*self)),
    {
        match self {
            JsonValue::Bool(b) => Some(*b),
            _ => None,
        }
    }
}

/// The text of the string member `key` of `v`, if `v` is an object that has one.
pub fn text_field(v: &JsonValue, key: &str) -> (r: Option<String>)
    ensures
        r is Some == text_of(v.member(key@)) is Some,
        r matches Some(s) ==> text_of(v.member(key@)) == Some(s@),
{
    let k = key.to_owned();
    match v.get(&k) {
        Some(JsonValue::Str(s)) => Some(s.clone()),
        _ => None,
    }
}

/// The 32-bit count held by the member `key` of `v`; none where it does not fit.
pub fn count_field(v: &JsonValue, key: &str) -> (r: Option<u32>)
    ensures
        r == count_of(v.member(key@)),
{
    let k = key.to_owned();
    match v.get(&k) {
        Some(JsonValue::UInt(n)) => if *n <= u32::MAX as u64 {
            Some(*n as u32)
        } else {
            None
        },
        _ => None,
    }
}

/// The flag held by the member `key` of `v`.
pub fn bool_field(v: &JsonValue, key: &str) -> (r: Option<bool>)
    ensures
        r == bool_of(v.member(key@)),
{
    let k = key.to_owned();
    match v.get(&k) {
        Some(JsonValue::Bool(b)) => Some(*b),
        _ => None,
    }
}

} // verus!
