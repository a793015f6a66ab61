use crate::json::{
    bool_field, bool_of, count_field, count_of, text_field, text_of, JsonValue,
};
use vstd::prelude::*;

verus! {

/// One decoded record of the log.
#[derive(Clone, Debug)]
pub struct LogEntry {
    pub timestamp: String,
    pub session_id: Option<String>,
    pub event_type: String,
    pub level: String,
    pub agent_name: Option<String>,
    pub agent_type: Option<String>,
    pub data: Option<JsonValue>,
}

/// The kinds of record the viewer knows, and a fallback for every other tag.
#[derive(Clone, Copy, Debug, PartialEq, Eq, Structural)]
pub enum EventKind {
    LlmResponse,
    ToolCall,
    ToolResult,
    AgentAction,
    ExecutionSummary,
    SessionStart,
    SessionEnd,
    Other,
}

/// The kind a tag names.
pub open spec fn kind_of(tag: Seq<char>) -> EventKind {
    if tag == "llm_response"@ {
        EventKind::LlmResponse
    } else if tag == "tool_call"@ {
        EventKind::ToolCall
    } else if tag == "tool_result"@ {
        EventKind::ToolResult
    } else if tag == "agent_action"@ {
        EventKind::AgentAction
    } else if tag == "execution_summary"@ {
        EventKind::ExecutionSummary
    } else if tag == "session_start"@ {
        EventKind::SessionStart
    } else if tag == "session_end"@ {
        EventKind::SessionEnd
    } else {
        EventKind::Other
    }
}

/// The base fields of a record that decoding checks.
#[derive(Clone, Copy, Debug, PartialEq, Eq, Structural)]
pub enum Field {
    Timestamp,
    SessionId,
    EventType,
    Level,
    AgentName,
    AgentType,
}

/// Why a record could not be decoded.
#[derive(Clone, Copy, Debug, PartialEq, Eq, Structural)]
pub enum DecodeError {
    /// The record is not a mapping.
    NotAnObject,
    /// A mandatory field is absent.
    MissingField(Field),
    /// A field is present with a value of the wrong shape.
    InvalidField(Field),
}

/// A tool invocation.
#[derive(Clone, Debug)]
pub struct ToolCallData {
    pub tool_name: String,
    pub params: Vec<(String, JsonValue)>,
    pub result_summary: Option<String>,
    pub indent: Option<u32>,
}

/// The outcome of a tool invocation.
#[derive(Clone, Debug)]
pub struct ToolResultData {
    pub tool_name: String,
    pub result_content: String,
    pub is_error: bool,
    pub tool_call_id: Option<String>,
    pub indent: Option<u32>,
}

/// Token counts reported with a model response.
#[derive(Clone, Copy, Debug, PartialEq, Eq, Structural)]
pub struct TokenUsage {
    pub total: Option<u32>,
    pub prompt: Option<u32>,
    pub completion: Option<u32>,
}

/// A model response.
#[derive(Clone, Debug)]
pub struct LlmResponseData {
    pub model: String,
    pub content: Option<String>,
    pub reasoning: Option<String>,
    pub tokens: Option<TokenUsage>,
    pub indent: Option<u32>,
}

/// The closing summary of a run.
#[derive(Clone, Debug)]
pub struct ExecutionSummaryData {
    pub iterations: u32,
    pub tokens: u32,
    pub success: bool,
    pub termination_reason: String,
}

/// An action taken by an agent.
#[derive(Clone, Debug)]
pub struct AgentActionData {
    pub action: String,
    pub details: Option<String>,
    pub indent: Option<u32>,
}

/// The text of an optional string.
pub open spec fn opt_text(o: Option<String>) -> Option<Seq<char>> {
    match o {
        Some(s) => Some(s@),
        None => None,
    }
}

/// An optional text field: absent, null, or a string.
pub open spec fn optional_text_ok(v: Option<JsonValue>) -> bool {
    match v {
        None => true,
        Some(JsonValue::Null) => true,
        Some(JsonValue::Str(_)) => true,
        _ => false,
    }
}

/// A text field with a default: absent, or a string.
pub open spec fn defaulted_text_ok(v: Option<JsonValue>) -> bool {
    match v {
        None => true,
        Some(JsonValue::Str(_)) => true,
        _ => false,
    }
}

/// The text of a field with a default.
pub open spec fn text_or(v: Option<JsonValue>, default: Seq<char>) -> Seq<char> {
    match text_of(v) {
        Some(t) => t,
        None => default,
    }
}

/// The payload of a record: a `null` payload counts as absent.
pub open spec fn payload_of(v: Option<JsonValue>) -> Option<JsonValue> {
    match v {
        Some(JsonValue::Null) => None,
        other => other,
    }
}

/// The first reason, if any, why `record` does not decode.
pub open spec fn decode_error(record: JsonValue) -> Option<DecodeError> {
    if !(record is Object) {
        Some(DecodeError::NotAnObject)
    } else if record.member("timestamp"@) is None {
        Some(DecodeError::MissingField(Field::Timestamp))
    } else if text_of(record.member("timestamp"@)) is None {
        Some(DecodeError::InvalidField(Field::Timestamp))
    } else if !optional_text_ok(record.member("session_id"@)) {
        Some(DecodeError::InvalidField(Field::SessionId))
    } else if !defaulted_text_ok(record.member("event_type"@)) {
        Some(DecodeError::InvalidField(Field::EventType))
    } else if !defaulted_text_ok(record.member("level"@)) {
        Some(DecodeError::InvalidField(Field::Level))
    } else if !optional_text_ok(record.member("agent_name"@)) {
        Some(DecodeError::InvalidField(Field::AgentName))
    } else if !optional_text_ok(record.member("agent_type"@)) {
        Some(DecodeError::InvalidField(Field::AgentType))
    } else {
        None
    }
}

/// `e` is what `record` decodes to.
pub open spec fn decoded_from(e: LogEntry, record: JsonValue) -> bool {
    &&& Some(e.timestamp@) == text_of(record.member("timestamp"@))
    &&& opt_text(e.session_id) == text_of(record.member("session_id"@))
    &&& e.event_type@ == text_or(record.member("event_type"@), "unknown"@)
    &&& e.level@ == text_or(record.member("level"@), "info"@)
    &&& opt_text(e.agent_name) == text_of(record.member("agent_name"@))
    &&& opt_text(e.agent_type) == text_of(record.member("agent_type"@))
    &&& e.data == payload_of(record.member("data"@))
}

/// Whether `s` holds exactly the text `lit`.
fn tag_is(s: &String, lit: &str) -> (r: bool)
    ensures
        r == (s@ == lit@),
{
    let t = lit.to_owned();
    *s == t
}

/// Reads an optional text field; `Err(())` where it has the wrong shape.
fn optional_text(record: &JsonValue, key: &str) -> (r: Result<Option<String>, ()>)
    ensures
        r is Ok == optional_text_ok(record.member(key@)),
        r matches Ok(o) ==> opt_text(o) == text_of(record.member(key@)),
{
    let k = key.to_owned();
    match record.get(&k) {
        None => Ok(None),
        Some(JsonValue::Null) => Ok(None),
        Some(JsonValue::Str(s)) => Ok(Some(s.clone())),
        Some(_) => Err(()),
    }
}

/// Reads a text field with a default; `Err(())` where it has the wrong shape.
fn defaulted_text(record: &JsonValue, key: &str, default: String) -> (r: Result<String, ()>)
    ensures
        r is Ok == defaulted_text_ok(record.member(key@)),
        r matches Ok(s) ==> s@ == text_or(record.member(key@), default@),
{
    let k = key.to_owned();
    match record.get(&k) {
        None => Ok(default),
        Some(JsonValue::Str(s)) => Ok(s.clone()),
        Some(_) => Err(()),
    }
}

/// The kind tag given to a record that names none.
pub fn default_event_type() -> (r: String)
    ensures
        r@ == "unknown"@,
{
    "unknown".to_owned()
}

/// The level given to a record that names none.
pub fn default_level() -> (r: String)
    ensures
        r@ == "info"@,
{
    "info".to_owned()
}

/// Decodes one record of the log from its data tree.
///
/// Only `timestamp` is mandatory; a missing kind becomes `"unknown"` and a
/// missing level `"info"`.  The payload is kept whatever its shape.
pub fn decode(record: &JsonValue) -> (r: Result<LogEntry, DecodeError>)
    ensures
        r is Ok <==> decode_error(*record) is None,
        r matches Ok(e) ==> decoded_from(e, *record),
        r matches Err(err) ==> decode_error(*record) == Some(err),
{
    match record {
        JsonValue::Object(_) => {},
        _ => { return Err(DecodeError::NotAnObject); },
    }
    let ts_key = "timestamp".to_owned();
    let timestamp = match record.get(&ts_key) {
        None => { return Err(DecodeError::MissingField(Field::Timestamp)); },
        Some(JsonValue::Str(s)) => s.clone(),
        Some(_) => { return Err(DecodeError::InvalidField(Field::Timestamp)); },
    };
    let session_id = match optional_text(record, "session_id") {
        Ok(o) => o,
        Err(()) => { return Err(DecodeError::InvalidField(Field::SessionId)); },
    };
    let event_type = match defaulted_text(record, "event_type", default_event_type()) {
        Ok(s) => s,
        Err(()) => { return Err(DecodeError::InvalidField(Field::EventType)); },
    };
    let level = match defaulted_text(record, "level", default_level()) {
        Ok(s) => s,
        Err(()) => { return Err(DecodeError::InvalidField(Field::Level)); },
    };
    let agent_name = match optional_text(record, "agent_name") {
        Ok(o) => o,
        Err(()) => { return Err(DecodeError::InvalidField(Field::AgentName)); },
    };
    let agent_type = match optional_text(record, "agent_type") {
        Ok(o) => o,
        Err(()) => { return Err(DecodeError::InvalidField(Field::AgentType)); },
    };
    let data_key = "data".to_owned();
    let data = match record.get(&data_key) {
        None => None,
        Some(JsonValue::Null) => None,
        Some(v) => Some(v.duplicate()),
    };
    Ok(LogEntry { timestamp, session_id, event_type, level, agent_name, agent_type, data })
}

/// Copies the entries of an object node.
fn copy_entries(m: &Vec<(String, JsonValue)>) -> (r: Vec<(String, JsonValue)>)
    ensures
        r@ == m@,
{
    let mut out: Vec<(String, JsonValue)> = Vec::new();
    let mut i: usize = 0;
    while i < m.len()
        invariant
            i <= m.len(),
            out@ == m@.subrange(0, i as int),
        decreases m.len() - i,
    {
        let k = m[i].0.clone();
        let v = m[i].1.duplicate();
        out.push((k, v));
        i += 1;
    }
    assert(out@ =~= m@);
    out
}

/// The parameters of a tool call: the entries of an object, else none.
pub open spec fn params_of(v: Option<JsonValue>) -> Seq<(String, JsonValue)> {
    match v {
        Some(JsonValue::Object(m)) => m@,
        _ => Seq::empty(),
    }
}

/// The token counts of a model response, read from its `tokens` member.
pub open spec fn usage_of(v: Option<JsonValue>) -> Option<TokenUsage> {
    match v {
        Some(t) => Some(
            TokenUsage {
                total: count_of(t.member("total"@)),
                prompt: count_of(t.member("prompt"@)),
                completion: count_of(t.member("completion"@)),
            },
        ),
        None => None,
    }
}

impl LogEntry {
    /// The kind of this record; an unknown tag is kept verbatim in `event_type`.
    pub fn kind(&self) -> (r: EventKind)
        ensures
            r == kind_of(self.event_type@),
    {
        if tag_is(&self.event_type, "llm_response") {
            EventKind::LlmResponse
        } else if tag_is(&self.event_type, "tool_call") {
            EventKind::ToolCall
        } else if tag_is(&self.event_type, "tool_result") {
            EventKind::ToolResult
        } else if tag_is(&self.event_type, "agent_action") {
            EventKind::AgentAction
        } else if tag_is(&self.event_type, "execution_summary") {
            EventKind::ExecutionSummary
        } else if tag_is(&self.event_type, "session_start") {
            EventKind::SessionStart
        } else if tag_is(&self.event_type, "session_end") {
            EventKind::SessionEnd
        } else {
            EventKind::Other
        }
    }

    /// The payload member `key`, if there is a payload.
    pub open spec fn field(self, key: Seq<char>) -> Option<JsonValue> {
        match self.data {
            Some(d) => d.member(key),
            None => None,
        }
    }

    /// A tool call view exists for this record.
    pub open spec fn is_tool_call(self) -> bool {
        self.event_type@ == "tool_call"@ && text_of(self.field("tool_name"@)) is Some
    }

    /// A tool result view exists for this record.
    pub open spec fn is_tool_result(self) -> bool {
        &&& self.event_type@ == "tool_result"@
        &&& text_of(self.field("tool_name"@)) is Some
        &&& text_of(self.field("result_content"@)) is Some
    }

    /// A model response view exists for this record.
    pub open spec fn is_llm_response(self) -> bool {
        self.event_type@ == "llm_response"@ && text_of(self.field("model"@)) is Some
    }

    /// An execution summary view exists for this record.
    pub open spec fn is_execution_summary(self) -> bool {
        &&& self.event_type@ == "execution_summary"@
        &&& count_of(self.field("iterations"@)) is Some
        &&& count_of(self.field("tokens"@)) is Some
        &&& bool_of(self.field("success"@)) is Some
        &&& text_of(self.field("termination_reason"@)) is Some
    }

    /// An agent action view exists for this record.
    pub open spec fn is_agent_action(self) -> bool {
        self.event_type@ == "agent_action"@ && text_of(self.field("action"@)) is Some
    }

    /// The tool call view of this record, if it is a tool call naming its tool.
    ///
    /// `params` is empty where the payload's `params` is not a mapping.
    pub fn parse_tool_call(&self) -> (r: Option<ToolCallData>)
        ensures
            r is Some == self.is_tool_call(),
            r matches Some(d) ==> {
                &&& Some(d.tool_name@) == text_of(self.field("tool_name"@))
                &&& d.params@ == params_of(self.field("params"@))
                &&& opt_text(d.result_summary) == text_of(self.field("result_summary"@))
                &&& d.indent == count_of(self.field("indent"@))
            },
    {
        if !tag_is(&self.event_type, "tool_call") {
            return None;
        }
        let data = match &self.data {
            Some(d) => d,
            None => { return None; },
        };
        let tool_name = match text_field(data, "tool_name") {
            Some(t) => t,
            None => { return None; },
        };
        let params_key = "params".to_owned();
        let params = match data.get(&params_key) {
            Some(JsonValue::Object(m)) => copy_entries(&**m),
            _ => Vec::new(),
        };
        Some(
            ToolCallData {
                tool_name,
                params,
                result_summary: text_field(data, "result_summary"),
                indent: count_field(data, "indent"),
            },
        )
    }

    /// The tool result view of this record; `is_error` defaults to false.
    pub fn parse_tool_result(&self) -> (r: Option<ToolResultData>)
        ensures
            r is Some == self.is_tool_result(),
            r matches Some(d) ==> {
                &&& Some(d.tool_name@) == text_of(self.field("tool_name"@))
                &&& Some(d.result_content@) == text_of(self.field("result_content"@))
                &&& d.is_error == (bool_of(self.field("is_error"@)) == Some(true))
                &&& opt_text(d.tool_call_id) == text_of(self.field("tool_call_id"@))
                &&& d.indent == count_of(self.field("indent"@))
            },
    {
        if !tag_is(&self.event_type, "tool_result") {
            return None;
        }
        let data = match &self.data {
            Some(d) => d,
            None => { return None; },
        };
        let tool_name = match text_field(data, "tool_name") {
            Some(t) => t,
            None => { return None; },
        };
        let result_content = match text_field(data, "result_content") {
            Some(t) => t,
            None => { return None; },
        };
        let is_error = match bool_field(data, "is_error") {
            Some(b) => b,
            None => false,
        };
        Some(
            ToolResultData {
                tool_name,
                result_content,
                is_error,
                tool_call_id: text_field(data, "tool_call_id"),
                indent: count_field(data, "indent"),
            },
        )
    }

    /// The model response view of this record.
    ///
    /// `tokens` is present whenever the payload has a `tokens` member; each
    /// count in it is read on its own.
    pub fn parse_llm_response(&self) -> (r: Option<LlmResponseData>)
        ensures
            r is Some == self.is_llm_response(),
            r matches Some(d) ==> {
                &&& Some(d.model@) == text_of(self.field("model"@))
                &&& opt_text(d.content) == text_of(self.field("content"@))
                &&& opt_text(d.reasoning) == text_of(self.field("reasoning"@))
                &&& d.tokens == usage_of(self.field("tokens"@))
                &&& d.indent == count_of(self.field("indent"@))
            },
    {
        if !tag_is(&self.event_type, "llm_response") {
            return None;
        }
        let data = match &self.data {
            Some(d) => d,
            None => { return None; },
        };
        let model = match text_field(data, "model") {
            Some(t) => t,
            None => { return None; },
        };
        let tokens_key = "tokens".to_owned();
        let tokens = match data.get(&tokens_key) {
            Some(t) => Some(
                TokenUsage {
                    total: count_field(t, "total"),
                    prompt: count_field(t, "prompt"),
                    completion: count_field(t, "completion"),
                },
            ),
            None => None,
        };
        Some(
            LlmResponseData {
                model,
                content: text_field(data, "content"),
                reasoning: text_field(data, "reasoning"),
                tokens,
                indent: count_field(data, "indent"),
            },
        )
    }

    /// The execution summary view of this record: all four members are mandatory.
    pub fn parse_execution_summary(&self) -> (r: Option<ExecutionSummaryData>)
        ensures
            r is Some == self.is_execution_summary(),
            r matches Some(d) ==> {
                &&& Some(d.iterations) == count_of(self.field("iterations"@))
                &&& Some(d.tokens) == count_of(self.field("tokens"@))
                &&& Some(d.success) == bool_of(self.field("success"@))
                &&& Some(d.termination_reason@) == text_of(self.field("termination_reason"@))
            },
    {
        if !tag_is(&self.event_type, "execution_summary") {
            return None;
        }
        let data = match &self.data {
            Some(d) => d,
            None => { return None; },
        };
        let iterations = match count_field(data, "iterations") {
            Some(n) => n,
            None => { return None; },
        };
        let tokens = match count_field(data, "tokens") {
            Some(n) => n,
            None => { return None; },
        };
        let success = match bool_field(data, "success") {
            Some(b) => b,
            None => { return None; },
        };
        let termination_reason = match text_field(data, "termination_reason") {
            Some(t) => t,
            None => { return None; },
        };
        Some(ExecutionSummaryData { iterations, tokens, success, termination_reason })
    }

    /// The agent action view of this record.
    pub fn parse_agent_action(&self) -> (r: Option<AgentActionData>)
        ensures
            r is Some == self.is_agent_action(),
            r matches Some(d) ==> {
                &&& Some(d.action@) == text_of(self.field("action"@))
                &&& opt_text(d.details) == text_of(self.field("details"@))
                &&& d.indent == count_of(self.field("indent"@))
            },
    {
        if !tag_is(&self.event_type, "agent_action") {
            return None;
        }
        let data = match &self.data {
            Some(d) => d,
            None => { return None; },
        };
        let action = match text_field(data, "action") {
            Some(t) => t,
            None => { return None; },
        };
        Some(
            AgentActionData {
                action,
                details: text_field(data, "details"),
                indent: count_field(data, "indent"),
            },
        )
    }
}

/// At most one typed view exists for any record: its kind decides which.
pub proof fn lemma_views_exclusive(e: LogEntry)
    ensures
        e.is_tool_call() ==> !e.is_tool_result() && !e.is_llm_response()
            && !e.is_execution_summary() && !e.is_agent_action(),
        e.is_tool_result() ==> !e.is_llm_response() && !e.is_execution_summary()
            && !e.is_agent_action(),
        e.is_llm_response() ==> !e.is_execution_summary() && !e.is_agent_action(),
        e.is_execution_summary() ==> !e.is_agent_action(),
{
    reveal_strlit("tool_call");
    reveal_strlit("tool_result");
    reveal_strlit("llm_response");
    reveal_strlit("execution_summary");
    reveal_strlit("agent_action");
    assert("tool_call"@.len() == 9);
    assert("tool_result"@.len() == 11);
    assert("llm_response"@.len() == 12);
    assert("execution_summary"@.len() == 17);
    assert("agent_action"@.len() == 12);
    assert("llm_response"@[0] != "agent_action"@[0]);
}

/// Any well-shaped record decodes, with kind `"unknown"` and level `"info"`
/// where it names none.
pub proof fn lemma_decode_defaults(record: JsonValue, e: LogEntry)
    requires
        decode_error(record) is None,
        decoded_from(e, record),
    ensures
        record.member("event_type"@) is None ==> e.event_type@ == "unknown"@,
        record.member("level"@) is None ==> e.level@ == "info"@,
        record.member("data"@) is None ==> e.data is None,
{
}

/// A mapping with a text `timestamp`, no kind and no level, whose optional
/// text fields are absent, null or text, decodes; its kind is `"unknown"`
/// and its level `"info"`.
pub proof fn lemma_decode_totality(record: JsonValue)
    requires
        record is Object,
        text_of(record.member("timestamp"@)) is Some,
        record.member("event_type"@) is None,
        record.member("level"@) is None,
        optional_text_ok(record.member("session_id"@)),
        optional_text_ok(record.member("agent_name"@)),
        optional_text_ok(record.member("agent_type"@)),
    ensures
        decode_error(record) is None,
        forall|e: LogEntry|
            #[trigger] decoded_from(e, record) ==> e.event_type@ == "unknown"@ && e.level@
                == "info"@,
{
}

} // verus!
