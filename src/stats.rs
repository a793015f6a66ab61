use crate::event::{opt_text, usage_of, LogEntry};
use crate::json::{bool_of, text_of};
use vstd::prelude::*;

verus! {

/// A count per name, kept in order of first appearance.
///
/// A name is counted by its first entry; `add` never creates a second one.
#[derive(Clone, Debug)]
pub struct Tally {
    pub entries: Vec<(String, u64)>,
}

/// The count of `key` among `entries`; the first entry wins, no entry counts zero.
pub open spec fn tally_value(entries: Seq<(String, u64)>, key: Seq<char>) -> nat
    decreases entries.len(),
{
    if entries.len() == 0 {
        0
    } else if entries[0].0@ == key {
        entries[0].1 as nat
    } else {
        tally_value(entries.drop_first(), key)
    }
}

/// `n`, held at the largest 64-bit value.
pub open spec fn capped(n: int) -> nat {
    if n > u64::MAX {
        u64::MAX as nat
    } else if n < 0 {
        0
    } else {
        n as nat
    }
}

proof fn lemma_tally_skip(s: Seq<(String, u64)>, i: int, key: Seq<char>)
    requires
        0 <= i <= s.len(),
        forall|j: int| 0 <= j < i ==> s[j].0@ != key,
    ensures
        tally_value(s, key) == tally_value(s.subrange(i, s.len() as int), key),
    decreases i,
{
    if i > 0 {
        assert(s.drop_first().subrange(i - 1, s.drop_first().len() as int) =~= s.subrange(
            i,
            s.len() as int,
        ));
        lemma_tally_skip(s.drop_first(), i - 1, key);
    } else {
        assert(s.subrange(0, s.len() as int) =~= s);
    }
}

proof fn lemma_tally_update(s: Seq<(String, u64)>, i: int, v: u64, key: Seq<char>)
    requires
        0 <= i < s.len(),
        forall|j: int| 0 <= j < i ==> s[j].0@ != s[i].0@,
    ensures
        tally_value(s.update(i, (s[i].0, v)), key) == if key == s[i].0@ {
            v as nat
        } else {
            tally_value(s, key)
        },
    decreases i,
{
    let t = s.update(i, (s[i].0, v));
    if i == 0 {
        assert(t.drop_first() =~= s.drop_first());
    } else {
        assert(t.drop_first() =~= s.drop_first().update(i - 1, (s[i].0, v)));
        lemma_tally_update(s.drop_first(), i - 1, v, key);
    }
}

proof fn lemma_tally_push(s: Seq<(String, u64)>, k: String, v: u64, key: Seq<char>)
    requires
        forall|j: int| 0 <= j < s.len() ==> s[j].0@ != k@,
    ensures
        tally_value(s.push((k, v)), key) == if key == k@ {
            v as nat
        } else {
            tally_value(s, key)
        },
    decreases s.len(),
{
    if s.len() == 0 {
        assert(s.push((k, v)).drop_first() =~= s);
    } else {
        assert(s.push((k, v))[0] == s[0]);
        assert(s.push((k, v)).drop_first() =~= s.drop_first().push((k, v)));
        lemma_tally_push(s.drop_first(), k, v, key);
    }
}

impl Tally {
    /// The count of `key`.
    pub open spec fn value(self, key: Seq<char>) -> nat {
        tally_value(self.entries@, key)
    }

    /// `key` has an entry.
    pub open spec fn listed(self, key: Seq<char>) -> bool {
        exists|i: int| 0 <= i < self.entries@.len() && (#[trigger] self.entries@[i]).0@ == key
    }

    /// Each name has at most one entry.
    pub open spec fn wf(self) -> bool {
        forall|i: int, j: int|
            0 <= i < j < self.entries@.len() ==> (#[trigger] self.entries@[i]).0@
                != (#[trigger] self.entries@[j]).0@
    }

    /// An empty tally: no name is listed and every name counts zero.
    pub fn new() -> (r: Tally)
        ensures
            r.entries@.len() == 0,
            r.wf(),
            forall|k: Seq<char>| !r.listed(k),
            forall|k: Seq<char>| #[trigger] r.value(k) == 0,
    {
        Tally { entries: Vec::new() }
    }

    /// The count of `key`.
    pub fn get(&self, key: &String) -> (r: u64)
        ensures
            r == self.value(key@),
    {
        let mut i: usize = 0;
        while i < self.entries.len()
            invariant
                i <= self.entries.len(),
                forall|j: int| 0 <= j < i ==> self.entries@[j].0@ != key@,
            decreases self.entries.len() - i,
        {
            if self.entries[i].0 == *key {
                proof {
                    lemma_tally_skip(self.entries@, i as int, key@);
                }
                return self.entries[i].1;
            }
            i += 1;
        }
        proof {
            lemma_tally_skip(self.entries@, i as int, key@);
        }
        0
    }

    /// Adds `amount` to the count of `key`, holding it at the largest 64-bit value.
    ///
    /// `key` is listed afterwards, a new entry coming last; no other name is
    /// listed or unlisted.
    pub fn add(&mut self, key: &String, amount: u64)
        ensures
            old(self).wf() ==> final(self).wf(),
            forall|k: Seq<char>|
                #[trigger] final(self).listed(k) == (old(self).listed(k) || k == key@),
            forall|k: Seq<char>|
                #[trigger] final(self).value(k) == if k == key@ {
                    capped(old(self).value(k) + amount)
                } else {
                    old(self).value(k)
                },
    {
        let mut i: usize = 0;
        while i < self.entries.len()
            invariant
                i <= self.entries.len(),
                self.entries@ == old(self).entries@,
                forall|j: int| 0 <= j < i ==> self.entries@[j].0@ != key@,
            decreases self.entries.len() - i,
        {
            if self.entries[i].0 == *key {
                let current = self.entries[i].1;
                let name = self.entries[i].0.clone();
                let updated = current.saturating_add(amount);
                proof {
                    lemma_tally_skip(self.entries@, i as int, key@);
                    assert(self.entries@.subrange(i as int, self.entries.len() as int)[0]
                        == self.entries@[i as int]);
                    assert(self.value(key@) == current);
                    assert(updated == capped(current + amount));
                    assert forall|k: Seq<char>|
                        #[trigger] tally_value(
                            self.entries@.update(i as int, (name, updated)),
                            k,
                        ) == if k == key@ {
                            capped(self.value(k) + amount)
                        } else {
                            self.value(k)
                        } by {
                        lemma_tally_update(self.entries@, i as int, updated, k);
                    }
                }
                let ghost before = *self;
                self.entries.set(i, (name, updated));
                proof {
                    assert forall|j: int| 0 <= j < self.entries@.len() implies
                        #[trigger] self.entries@[j].0@ == before.entries@[j].0@ by {}
                    assert forall|k: Seq<char>| #[trigger] self.listed(k) == (before.listed(k) || k
                        == key@) by {
                        if before.listed(k) {
                            let j = choose|j: int|
                                0 <= j < before.entries@.len() && (#[trigger] before.entries@[j]).0@
                                    == k;
                            assert(self.entries@[j].0@ == k);
                        }
                        if k == key@ {
                            assert(self.entries@[i as int].0@ == k);
                        }
                        if self.listed(k) {
                            let j = choose|j: int|
                                0 <= j < self.entries@.len() && (#[trigger] self.entries@[j]).0@ == k;
                            assert(before.entries@[j].0@ == k);
                        }
                    }
                }
                return;
            }
            i += 1;
        }
        proof {
            lemma_tally_skip(self.entries@, i as int, key@);
            assert forall|k: Seq<char>|
                #[trigger] tally_value(self.entries@.push((*key, amount)), k) == if k == key@ {
                    capped(self.value(k) + amount)
                } else {
                    self.value(k)
                } by {
                lemma_tally_push(self.entries@, *key, amount, k);
            }
        }
        let ghost before = *self;
        self.entries.push((key.clone(), amount));
        proof {
            assert forall|k: Seq<char>| #[trigger] self.listed(k) == (before.listed(k) || k
                == key@) by {
                if before.listed(k) {
                    let j = choose|j: int|
                        0 <= j < before.entries@.len() && (#[trigger] before.entries@[j]).0@ == k;
                    assert(self.entries@[j] == before.entries@[j]);
                }
                if k == key@ {
                    assert(self.entries@[before.entries@.len() as int].0@ == k);
                }
                if self.listed(k) && k != key@ {
                    let j = choose|j: int|
                        0 <= j < self.entries@.len() && (#[trigger] self.entries@[j]).0@ == k;
                    assert(j < before.entries@.len());
                    assert(before.entries@[j] == self.entries@[j]);
                }
            }
            if before.wf() {
                assert forall|a: int, b: int|
                    0 <= a < b < self.entries@.len() implies (#[trigger] self.entries@[a]).0@
                        != (#[trigger] self.entries@[b]).0@ by {
                    assert(self.entries@[a] == before.entries@[a]);
                    if b < before.entries@.len() {
                        assert(self.entries@[b] == before.entries@[b]);
                    }
                }
            }
        }
    }
}

/// Tool usage counters, by tool name.
#[derive(Clone, Debug)]
pub struct ToolStats {
    pub calls: Tally,
    pub success: Tally,
    pub errors: Tally,
}

/// Model token usage: the total, the number of responses, and the total by agent.
#[derive(Clone, Debug)]
pub struct TokenStats {
    pub total_tokens: u64,
    pub total_calls: u64,
    pub by_agent: Tally,
}

/// The sum of `w` over the records `es`.
pub open spec fn sum_over(es: Seq<LogEntry>, w: spec_fn(LogEntry) -> nat) -> nat
    decreases es.len(),
{
    if es.len() == 0 {
        0
    } else {
        sum_over(es.drop_last(), w) + w(es.last())
    }
}

/// The tool named by a record's tool call view.
pub open spec fn called_tool(e: LogEntry) -> Option<Seq<char>> {
    if e.is_tool_call() {
        text_of(e.field("tool_name"@))
    } else {
        None
    }
}

/// The tool named by a record's tool result view, with whether it failed.
pub open spec fn tool_outcome(e: LogEntry) -> Option<(Seq<char>, bool)> {
    if e.is_tool_result() {
        Some((text_of(e.field("tool_name"@))->0, bool_of(e.field("is_error"@)) == Some(true)))
    } else {
        None
    }
}

/// The total token count reported by a record's model response view, or zero.
pub open spec fn response_tokens(e: LogEntry) -> nat {
    if e.is_llm_response() {
        match usage_of(e.field("tokens"@)) {
            Some(u) => match u.total {
                Some(t) => t as nat,
                None => 0,
            },
            None => 0,
        }
    } else {
        0
    }
}

/// Weight of a record when counting calls to `name`.
pub open spec fn call_weight(name: Seq<char>) -> spec_fn(LogEntry) -> nat {
    |e: LogEntry| if called_tool(e) == Some(name) { 1nat } else { 0nat }
}

/// Weight of a record when counting results of `name` that failed (`failed`) or not.
pub open spec fn outcome_weight(name: Seq<char>, failed: bool) -> spec_fn(LogEntry) -> nat {
    |e: LogEntry| if tool_outcome(e) == Some((name, failed)) { 1nat } else { 0nat }
}

/// Weight of a record when counting model responses.
pub open spec fn response_weight() -> spec_fn(LogEntry) -> nat {
    |e: LogEntry| if e.is_llm_response() { 1nat } else { 0nat }
}

/// Weight of a record when summing tokens.
pub open spec fn token_weight() -> spec_fn(LogEntry) -> nat {
    |e: LogEntry| response_tokens(e)
}

/// Weight of a record when summing the tokens of `agent`.
pub open spec fn agent_weight(agent: Seq<char>) -> spec_fn(LogEntry) -> nat {
    |e: LogEntry| if opt_text(e.agent_name) == Some(agent) { response_tokens(e) } else { 0nat }
}

/// The total token count a record's model response view reports, if it reports one.
pub open spec fn reported_total(e: LogEntry) -> Option<u32> {
    if e.is_llm_response() {
        match usage_of(e.field("tokens"@)) {
            Some(u) => u.total,
            None => None,
        }
    } else {
        None
    }
}

/// Weight of a record when counting the model responses of `agent` that report a total.
pub open spec fn report_weight(agent: Seq<char>) -> spec_fn(LogEntry) -> nat {
    |e: LogEntry|
        if opt_text(e.agent_name) == Some(agent) && reported_total(e) is Some {
            1nat
        } else {
            0nat
        }
}

/// The number of model responses of `agent` among `es` that report a total.
pub open spec fn reports_of(es: Seq<LogEntry>, agent: Seq<char>) -> nat {
    sum_over(es, report_weight(agent))
}

/// The number of tool calls to `name` among `es`.
pub open spec fn calls_of(es: Seq<LogEntry>, name: Seq<char>) -> nat {
    sum_over(es, call_weight(name))
}

/// The number of successful results of `name` among `es`.
pub open spec fn successes_of(es: Seq<LogEntry>, name: Seq<char>) -> nat {
    sum_over(es, outcome_weight(name, false))
}

/// The number of failed results of `name` among `es`.
pub open spec fn errors_of(es: Seq<LogEntry>, name: Seq<char>) -> nat {
    sum_over(es, outcome_weight(name, true))
}

/// The number of model responses among `es`.
pub open spec fn responses_of(es: Seq<LogEntry>) -> nat {
    sum_over(es, response_weight())
}

/// The tokens reported by the model responses among `es`.
pub open spec fn tokens_of(es: Seq<LogEntry>) -> nat {
    sum_over(es, token_weight())
}

/// The tokens reported by the model responses of `agent` among `es`.
pub open spec fn agent_tokens_of(es: Seq<LogEntry>, agent: Seq<char>) -> nat {
    sum_over(es, agent_weight(agent))
}

proof fn lemma_sum_over_step(es: Seq<LogEntry>, i: int, w: spec_fn(LogEntry) -> nat)
    requires
        0 <= i < es.len(),
    ensures
        sum_over(es.subrange(0, i + 1), w) == sum_over(es.subrange(0, i), w) + w(es[i]),
{
    assert(es.subrange(0, i + 1).drop_last() =~= es.subrange(0, i));
}

proof fn lemma_sum_over_bounded(es: Seq<LogEntry>, w: spec_fn(LogEntry) -> nat)
    requires
        forall|e: LogEntry| #[trigger] w(e) <= 1,
    ensures
        sum_over(es, w) <= es.len(),
    decreases es.len(),
{
    if es.len() > 0 {
        lemma_sum_over_bounded(es.drop_last(), w);
        assert(w(es.last()) <= 1);
    }
}

/// Summing over two runs of records one after the other is summing over each.
pub proof fn lemma_sum_over_concat(a: Seq<LogEntry>, b: Seq<LogEntry>, w: spec_fn(LogEntry) -> nat)
    ensures
        sum_over(a + b, w) == sum_over(a, w) + sum_over(b, w),
    decreases b.len(),
{
    if b.len() == 0 {
        assert(a + b =~= a);
    } else {
        assert((a + b).drop_last() =~= a + b.drop_last());
        assert((a + b).last() == b.last());
        lemma_sum_over_concat(a, b.drop_last(), w);
    }
}

/// Every statistic of two logs read one after the other is the sum of that
/// statistic over each log.
pub proof fn lemma_statistics_additive(a: Seq<LogEntry>, b: Seq<LogEntry>)
    ensures
        forall|name: Seq<char>|
            #[trigger] calls_of(a + b, name) == calls_of(a, name) + calls_of(b, name),
        forall|name: Seq<char>|
            #[trigger] successes_of(a + b, name) == successes_of(a, name) + successes_of(b, name),
        forall|name: Seq<char>|
            #[trigger] errors_of(a + b, name) == errors_of(a, name) + errors_of(b, name),
        responses_of(a + b) == responses_of(a) + responses_of(b),
        tokens_of(a + b) == tokens_of(a) + tokens_of(b),
        forall|agent: Seq<char>|
            #[trigger] agent_tokens_of(a + b, agent) == agent_tokens_of(a, agent)
                + agent_tokens_of(b, agent),
{
    assert forall|name: Seq<char>|
        #[trigger] calls_of(a + b, name) == calls_of(a, name) + calls_of(b, name) by {
        lemma_sum_over_concat(a, b, call_weight(name));
    }
    assert forall|name: Seq<char>|
        #[trigger] successes_of(a + b, name) == successes_of(a, name) + successes_of(b, name) by {
        lemma_sum_over_concat(a, b, outcome_weight(name, false));
    }
    assert forall|name: Seq<char>|
        #[trigger] errors_of(a + b, name) == errors_of(a, name) + errors_of(b, name) by {
        lemma_sum_over_concat(a, b, outcome_weight(name, true));
    }
    lemma_sum_over_concat(a, b, response_weight());
    lemma_sum_over_concat(a, b, token_weight());
    assert forall|agent: Seq<char>|
        #[trigger] agent_tokens_of(a + b, agent) == agent_tokens_of(a, agent) + agent_tokens_of(
            b,
            agent,
        ) by {
        lemma_sum_over_concat(a, b, agent_weight(agent));
    }
}

/// Counts tool calls, successful results and failed results by tool name.
pub fn calculate_tool_stats(entries: &Vec<LogEntry>) -> (r: ToolStats)
    ensures
        r.calls.wf(),
        r.success.wf(),
        r.errors.wf(),
        forall|name: Seq<char>| #[trigger] r.calls.value(name) == calls_of(entries@, name),
        forall|name: Seq<char>| #[trigger] r.success.value(name) == successes_of(entries@, name),
        forall|name: Seq<char>| #[trigger] r.errors.value(name) == errors_of(entries@, name),
        forall|name: Seq<char>| #[trigger] r.calls.listed(name) == (calls_of(entries@, name) > 0),
        forall|name: Seq<char>|
            #[trigger] r.success.listed(name) == (successes_of(entries@, name) > 0),
        forall|name: Seq<char>| #[trigger] r.errors.listed(name) == (errors_of(entries@, name) > 0),
{
    let mut calls = Tally::new();
    let mut success = Tally::new();
    let mut errors = Tally::new();
    let mut i: usize = 0;
    assert(entries@.subrange(0, 0) =~= Seq::<LogEntry>::empty());
    while i < entries.len()
        invariant
            i <= entries.len(),
            forall|name: Seq<char>|
                #[trigger] calls.value(name) == calls_of(entries@.subrange(0, i as int), name),
            forall|name: Seq<char>|
                #[trigger] success.value(name) == successes_of(
                    entries@.subrange(0, i as int),
                    name,
                ),
            forall|name: Seq<char>|
                #[trigger] errors.value(name) == errors_of(entries@.subrange(0, i as int), name),
            calls.wf(),
            success.wf(),
            errors.wf(),
            forall|name: Seq<char>|
                #[trigger] calls.listed(name) == (calls_of(entries@.subrange(0, i as int), name)
                    > 0),
            forall|name: Seq<char>|
                #[trigger] success.listed(name) == (successes_of(
                    entries@.subrange(0, i as int),
                    name,
                ) > 0),
            forall|name: Seq<char>|
                #[trigger] errors.listed(name) == (errors_of(entries@.subrange(0, i as int), name)
                    > 0),
        decreases entries.len() - i,
    {
        let entry = &entries[i];
        let ghost before = entries@.subrange(0, i as int);
        let ghost after = entries@.subrange(0, i + 1);
        let ghost calls0 = calls;
        let ghost success0 = success;
        let ghost errors0 = errors;
        proof {
            assert forall|name: Seq<char>|
                #![trigger calls_of(before, name)]
                #![trigger successes_of(before, name)]
                #![trigger errors_of(before, name)]
                calls_of(before, name) <= i && successes_of(before, name) <= i && errors_of(
                    before,
                    name,
                ) <= i by {
                lemma_sum_over_bounded(before, call_weight(name));
                lemma_sum_over_bounded(before, outcome_weight(name, false));
                lemma_sum_over_bounded(before, outcome_weight(name, true));
            }
        }
        let tool_call = entry.parse_tool_call();
        if let Some(tc) = &tool_call {
            calls.add(&tc.tool_name, 1);
        }
        let tool_result = entry.parse_tool_result();
        if let Some(tr) = &tool_result {
            if tr.is_error {
                errors.add(&tr.tool_name, 1);
            } else {
                success.add(&tr.tool_name, 1);
            }
        }
        proof {
            assert forall|name: Seq<char>|
                #![trigger calls_of(after, name)]
                calls.value(name) == calls_of(after, name) && calls.listed(name) == (calls_of(
                    after,
                    name,
                ) > 0) by {
                lemma_sum_over_step(entries@, i as int, call_weight(name));
            }
            assert forall|name: Seq<char>|
                #![trigger successes_of(after, name)]
                success.value(name) == successes_of(after, name) && success.listed(name) == (
                successes_of(after, name) > 0) by {
                lemma_sum_over_step(entries@, i as int, outcome_weight(name, false));
            }
            assert forall|name: Seq<char>|
                #![trigger errors_of(after, name)]
                errors.value(name) == errors_of(after, name) && errors.listed(name) == (errors_of(
                    after,
                    name,
                ) > 0) by {
                lemma_sum_over_step(entries@, i as int, outcome_weight(name, true));
            }
        }
        i += 1;
    }
    assert(entries@.subrange(0, entries.len() as int) =~= entries@);
    ToolStats { calls, success, errors }
}

/// Sums model token usage, overall and by agent, and counts model responses.
///
/// A response without an agent name adds to the overall total only.  Token
/// sums are held at the largest 64-bit value.
pub fn calculate_token_stats(entries: &Vec<LogEntry>) -> (r: TokenStats)
    ensures
        r.total_tokens == capped(tokens_of(entries@) as int),
        r.total_calls == responses_of(entries@),
        r.by_agent.wf(),
        forall|agent: Seq<char>|
            #[trigger] r.by_agent.value(agent) == capped(agent_tokens_of(entries@, agent) as int),
        forall|agent: Seq<char>|
            #[trigger] r.by_agent.listed(agent) == (reports_of(entries@, agent) > 0),
{
    let mut total_tokens: u64 = 0;
    let mut total_calls: u64 = 0;
    let mut by_agent = Tally::new();
    let mut i: usize = 0;
    assert(entries@.subrange(0, 0) =~= Seq::<LogEntry>::empty());
    while i < entries.len()
        invariant
            i <= entries.len(),
            total_tokens == capped(tokens_of(entries@.subrange(0, i as int)) as int),
            total_calls == responses_of(entries@.subrange(0, i as int)),
            forall|agent: Seq<char>|
                #[trigger] by_agent.value(agent) == capped(
                    agent_tokens_of(entries@.subrange(0, i as int), agent) as int,
                ),
            by_agent.wf(),
            forall|agent: Seq<char>|
                #[trigger] by_agent.listed(agent) == (reports_of(
                    entries@.subrange(0, i as int),
                    agent,
                ) > 0),
        decreases entries.len() - i,
    {
        let entry = &entries[i];
        let ghost before = entries@.subrange(0, i as int);
        let ghost after = entries@.subrange(0, i + 1);
        proof {
            lemma_sum_over_bounded(before, response_weight());
            lemma_sum_over_step(entries@, i as int, response_weight());
            lemma_sum_over_step(entries@, i as int, token_weight());
        }
        if let Some(llm_data) = entry.parse_llm_response() {
            total_calls = total_calls + 1;
            if let Some(tokens) = llm_data.tokens {
                if let Some(t) = tokens.total {
                    total_tokens = total_tokens.saturating_add(t as u64);
                    if let Some(agent) = &entry.agent_name {
                        by_agent.add(agent, t as u64);
                    }
                }
            }
        }
        proof {
            assert forall|agent: Seq<char>|
                #![trigger agent_tokens_of(after, agent)]
                by_agent.value(agent) == capped(agent_tokens_of(after, agent) as int) by {
                lemma_sum_over_step(entries@, i as int, agent_weight(agent));
            }
            assert forall|agent: Seq<char>|
                #![trigger reports_of(after, agent)]
                by_agent.listed(agent) == (reports_of(after, agent) > 0) by {
                lemma_sum_over_step(entries@, i as int, report_weight(agent));
            }
        }
        i += 1;
    }
    assert(entries@.subrange(0, entries.len() as int) =~= entries@);
    TokenStats { total_tokens, total_calls, by_agent }
}

/// Derives both statistics from the records in one pass each.
pub fn aggregate(entries: &Vec<LogEntry>) -> (r: (ToolStats, TokenStats))
    ensures
        forall|name: Seq<char>| #[trigger] r.0.calls.value(name) == calls_of(entries@, name),
        forall|name: Seq<char>| #[trigger] r.0.success.value(name) == successes_of(entries@, name),
        forall|name: Seq<char>| #[trigger] r.0.errors.value(name) == errors_of(entries@, name),
        r.1.total_tokens == capped(tokens_of(entries@) as int),
        r.1.total_calls == responses_of(entries@),
        forall|agent: Seq<char>|
            #[trigger] r.1.by_agent.value(agent) == capped(agent_tokens_of(entries@, agent) as int),
        r.0.calls.wf(),
        r.0.success.wf(),
        r.0.errors.wf(),
        r.1.by_agent.wf(),
        forall|name: Seq<char>| #[trigger] r.0.calls.listed(name) == (calls_of(entries@, name) > 0),
        forall|name: Seq<char>|
            #[trigger] r.0.success.listed(name) == (successes_of(entries@, name) > 0),
        forall|name: Seq<char>|
            #[trigger] r.0.errors.listed(name) == (errors_of(entries@, name) > 0),
        forall|agent: Seq<char>|
            #[trigger] r.1.by_agent.listed(agent) == (reports_of(entries@, agent) > 0),
{
    (calculate_tool_stats(entries), calculate_token_stats(entries))
}

/// A model response adds its tokens to the overall total, and to the total
/// of its agent only where it names one.
pub proof fn lemma_token_asymmetry(es: Seq<LogEntry>, e: LogEntry)
    requires
        e.is_llm_response(),
    ensures
        tokens_of(es.push(e)) == tokens_of(es) + response_tokens(e),
        responses_of(es.push(e)) == responses_of(es) + 1,
        e.agent_name is None ==> forall|agent: Seq<char>|
            #[trigger] agent_tokens_of(es.push(e), agent) == agent_tokens_of(es, agent),
        e.agent_name matches Some(a) ==> agent_tokens_of(es.push(e), a@) == agent_tokens_of(
            es,
            a@,
        ) + response_tokens(e),
        e.agent_name matches Some(a) ==> forall|agent: Seq<char>|
            agent != a@ ==> #[trigger] agent_tokens_of(es.push(e), agent) == agent_tokens_of(
                es,
                agent,
            ),
{
    assert(es.push(e).drop_last() =~= es);
    assert forall|agent: Seq<char>|
        #[trigger] agent_tokens_of(es.push(e), agent) == agent_tokens_of(es, agent) + (
        agent_weight(agent))(e) by {
        assert(es.push(e).drop_last() =~= es);
    }
}

/// The first position not yet `chosen` whose count is the largest among those not chosen.
fn most_called_unchosen(entries: &Vec<(String, u64)>, chosen: &Vec<bool>) -> (r: Option<usize>)
    requires
        chosen@.len() == entries@.len(),
    ensures
        r is None ==> forall|q: int| 0 <= q < entries@.len() ==> chosen@[q],
        r matches Some(b) ==> b < entries@.len() && !chosen@[b as int],
        r matches Some(b) ==> forall|q: int|
            0 <= q < entries@.len() && !chosen@[q] ==> (#[trigger] entries@[q]).1
                <= entries@[b as int].1,
        r matches Some(b) ==> forall|q: int|
            0 <= q < entries@.len() && !chosen@[q] && (#[trigger] entries@[q]).1
                == entries@[b as int].1 ==> b <= q,
{
    let mut best: Option<usize> = None;
    let mut j: usize = 0;
    while j < entries.len()
        invariant
            j <= entries@.len(),
            chosen@.len() == entries@.len(),
            best matches Some(b) ==> b < j && !chosen@[b as int],
            best is None ==> forall|q: int| 0 <= q < j ==> chosen@[q],
            best matches Some(b) ==> forall|q: int|
                0 <= q < j && !chosen@[q] ==> (#[trigger] entries@[q]).1 <= entries@[b as int].1,
            best matches Some(b) ==> forall|q: int|
                0 <= q < j && !chosen@[q] && (#[trigger] entries@[q]).1 == entries@[b as int].1
                    ==> b <= q,
        decreases entries@.len() - j,
    {
        if !chosen[j] {
            match best {
                Some(b) => {
                    if entries[j].1 > entries[b].1 {
                        best = Some(j);
                    }
                },
                None => {
                    best = Some(j);
                },
            }
        }
        j += 1;
    }
    best
}

impl ToolStats {
    /// The positions in `calls.entries` of the `n` most called tools, most
    /// called first; among equal counts the tool seen first comes first.
    ///
    /// Fewer than `n` come back only where every tool is listed.
    pub fn top_tools(&self, n: usize) -> (r: Vec<usize>)
        ensures
            r@.len() <= n,
            r@.len() < n ==> forall|k: usize|
                k < self.calls.entries@.len() ==> #[trigger] r@.contains(k),
            forall|i: int| 0 <= i < r@.len() ==> r@[i] < self.calls.entries@.len(),
            forall|i: int, j: int| 0 <= i < j < r@.len() ==> r@[i] != r@[j],
            forall|i: int, j: int|
                0 <= i < j < r@.len() ==> self.calls.entries@[r@[i] as int].1
                    >= self.calls.entries@[r@[j] as int].1,
            forall|i: int, j: int|
                0 <= i < j < r@.len() && self.calls.entries@[r@[i] as int].1
                    == self.calls.entries@[r@[j] as int].1 ==> r@[i] < r@[j],
            r@.len() > 0 ==> forall|k: int|
                0 <= k < self.calls.entries@.len() && !r@.contains(k as usize)
                    ==> (#[trigger] self.calls.entries@[k]).1 <= self.calls.entries@[r@[r@.len()
                    - 1] as int].1,
    {
        let entries = &self.calls.entries;
        let len = entries.len();
        let mut chosen: Vec<bool> = Vec::new();
        let mut k: usize = 0;
        while k < len
            invariant
                k <= len,
                len == entries@.len(),
                chosen@.len() == k,
                forall|i: int| 0 <= i < k ==> !chosen@[i],
            decreases len - k,
        {
            chosen.push(false);
            k += 1;
        }
        let mut r: Vec<usize> = Vec::new();
        while r.len() < n
            invariant
                len == entries@.len(),
                entries@ == self.calls.entries@,
                chosen@.len() == len,
                r@.len() <= n,
                forall|i: int| 0 <= i < len ==> (chosen@[i] <==> r@.contains(i as usize)),
                forall|i: int| 0 <= i < r@.len() ==> r@[i] < len,
                forall|i: int, j: int| 0 <= i < j < r@.len() ==> r@[i] != r@[j],
                forall|i: int, j: int|
                    0 <= i < j < r@.len() ==> entries@[r@[i] as int].1 >= entries@[r@[j] as int].1,
                forall|i: int, j: int|
                    0 <= i < j < r@.len() && entries@[r@[i] as int].1 == entries@[r@[j] as int].1
                        ==> r@[i] < r@[j],
                forall|i: int, q: int|
                    #![trigger entries@[q], r@[i]]
                    0 <= i < r@.len() && 0 <= q < len && !chosen@[q] && entries@[q].1
                        == entries@[r@[i] as int].1 ==> r@[i] < q,
                r@.len() > 0 ==> forall|q: int|
                    0 <= q < len && !chosen@[q] ==> (#[trigger] entries@[q]).1 <= entries@[r@[r@.len()
                        - 1] as int].1,
            decreases n - r@.len(),
        {
            let best = most_called_unchosen(entries, &chosen);
            match best {
                Some(b) => {
                    let ghost r0 = r@;
                    r.push(b);
                    chosen.set(b, true);
                    proof {
                        assert forall|i: int| 0 <= i < len implies (chosen@[i] <==> r@.contains(
                            i as usize,
                        )) by {
                            if r@.contains(i as usize) && i != b {
                                let w = choose|w: int| 0 <= w < r@.len() && r@[w] == i as usize;
                                assert(r0[w] == i as usize);
                            }
                            if i == b {
                                assert(r@[r@.len() - 1] == b);
                            } else if r0.contains(i as usize) {
                                let w = choose|w: int| 0 <= w < r0.len() && r0[w] == i as usize;
                                assert(r@[w] == i as usize);
                            }
                        }
                        assert forall|i: int| 0 <= i < r0.len() implies r0[i] != b by {
                            assert(r0.contains(r0[i]));
                        }
                    }
                },
                None => {
                    proof {
                        assert forall|q: usize| q < len implies #[trigger] r@.contains(q) by {
                            assert(chosen@[q as int]);
                        }
                    }
                    return r;
                },
            }
        }
        r
    }
}

} // verus!
