use log_analyzer::event::{decode, LogEntry};
use log_analyzer::json::JsonValue;
use log_analyzer::stats::{aggregate, calculate_token_stats, calculate_tool_stats, Tally};

fn s(x: &str) -> JsonValue {
    JsonValue::Str(x.to_string())
}

fn obj(pairs: Vec<(&str, JsonValue)>) -> JsonValue {
    JsonValue::object(pairs.into_iter().map(|(k, v)| (k.to_string(), v)).collect())
}

fn event(kind: &str, agent: Option<&str>, data: JsonValue) -> LogEntry {
    let mut fields = vec![("timestamp", s("2024-01-01T00:00:00Z")), ("event_type", s(kind))];
    if let Some(a) = agent {
        fields.push(("agent_name", s(a)));
    }
    fields.push(("data", data));
    decode(&obj(fields)).unwrap()
}

fn call(tool: &str) -> LogEntry {
    event("tool_call", None, obj(vec![("tool_name", s(tool))]))
}

fn result(tool: &str, is_error: bool) -> LogEntry {
    event(
        "tool_result",
        None,
        obj(vec![
            ("tool_name", s(tool)),
            ("result_content", s("r")),
            ("is_error", JsonValue::Bool(is_error)),
        ]),
    )
}

fn response(agent: Option<&str>, total: Option<u64>) -> LogEntry {
    let mut data = vec![("model", s("m"))];
    if let Some(t) = total {
        data.push(("tokens", obj(vec![("total", JsonValue::UInt(t))])));
    }
    event("llm_response", agent, obj(data))
}

fn key(x: &str) -> String {
    x.to_string()
}

#[test]
fn tool_stats_count_calls_and_outcomes() {
    let es = vec![
        call("search"),
        call("search"),
        call("fetch"),
        result("search", false),
        result("search", true),
        result("fetch", false),
        event("tool_call", None, obj(vec![])),
    ];
    let st = calculate_tool_stats(&es);
    assert_eq!(st.calls.get(&key("search")), 2);
    assert_eq!(st.calls.get(&key("fetch")), 1);
    assert_eq!(st.calls.get(&key("other")), 0);
    assert_eq!(st.success.get(&key("search")), 1);
    assert_eq!(st.errors.get(&key("search")), 1);
    assert_eq!(st.success.get(&key("fetch")), 1);
    assert_eq!(st.errors.get(&key("fetch")), 0);
    assert_eq!(st.calls.entries.len(), 2);
    assert_eq!(st.calls.entries[0].0, "search");
}

#[test]
fn token_stats_sum_by_agent() {
    let es = vec![
        response(Some("forecaster"), Some(100)),
        response(Some("critic"), Some(30)),
        response(Some("forecaster"), Some(5)),
        response(None, Some(7)),
        response(Some("critic"), None),
        call("x"),
    ];
    let ts = calculate_token_stats(&es);
    assert_eq!(ts.total_tokens, 142);
    assert_eq!(ts.total_calls, 5);
    assert_eq!(ts.by_agent.get(&key("forecaster")), 105);
    assert_eq!(ts.by_agent.get(&key("critic")), 30);
    assert_eq!(ts.by_agent.entries.len(), 2);
}

#[test]
fn token_asymmetry_without_agent() {
    let before = calculate_token_stats(&vec![]);
    let after = calculate_token_stats(&vec![response(None, Some(100))]);
    assert_eq!(after.total_tokens, before.total_tokens + 100);
    assert_eq!(after.by_agent.entries.len(), 0);
    assert_eq!(after.by_agent.get(&key("forecaster")), 0);
}

#[test]
fn token_asymmetry_with_agent() {
    let after = calculate_token_stats(&vec![response(Some("forecaster"), Some(100))]);
    assert_eq!(after.total_tokens, 100);
    assert_eq!(after.by_agent.get(&key("forecaster")), 100);
}

#[test]
fn aggregation_of_concatenation_is_sum() {
    let a = vec![call("s"), result("s", true), response(Some("x"), Some(10))];
    let b = vec![call("s"), call("t"), result("s", false), response(Some("x"), Some(3)), response(None, Some(2))];
    let mut ab = a.clone();
    ab.extend(b.iter().cloned());
    let (ta, ka) = aggregate(&a);
    let (tb, kb) = aggregate(&b);
    let (tab, kab) = aggregate(&ab);
    for name in ["s", "t", "u"] {
        let k = key(name);
        assert_eq!(tab.calls.get(&k), ta.calls.get(&k) + tb.calls.get(&k));
        assert_eq!(tab.success.get(&k), ta.success.get(&k) + tb.success.get(&k));
        assert_eq!(tab.errors.get(&k), ta.errors.get(&k) + tb.errors.get(&k));
    }
    assert_eq!(kab.total_tokens, ka.total_tokens + kb.total_tokens);
    assert_eq!(kab.total_calls, ka.total_calls + kb.total_calls);
    assert_eq!(kab.by_agent.get(&key("x")), ka.by_agent.get(&key("x")) + kb.by_agent.get(&key("x")));
    assert_eq!(kab.total_tokens, 15);
}

#[test]
fn empty_log_gives_empty_statistics() {
    let (t, k) = aggregate(&vec![]);
    assert!(t.calls.entries.is_empty());
    assert!(t.success.entries.is_empty());
    assert!(t.errors.entries.is_empty());
    assert_eq!(k.total_tokens, 0);
    assert_eq!(k.total_calls, 0);
    assert!(k.by_agent.entries.is_empty());
}

#[test]
fn tally_add_saturates() {
    let mut t = Tally::new();
    t.add(&key("a"), u64::MAX - 1);
    t.add(&key("a"), 5);
    t.add(&key("b"), 2);
    assert_eq!(t.get(&key("a")), u64::MAX);
    assert_eq!(t.get(&key("b")), 2);
    assert_eq!(t.entries.len(), 2);
}

#[test]
fn top_tools_most_called_first() {
    let es = vec![
        call("a"),
        call("b"),
        call("b"),
        call("c"),
        call("c"),
        call("c"),
        call("d"),
        call("d"),
    ];
    let st = calculate_tool_stats(&es);
    let top: Vec<&str> = st.top_tools(3).into_iter().map(|i| st.calls.entries[i].0.as_str()).collect();
    assert_eq!(top, vec!["c", "b", "d"]);
    assert_eq!(st.top_tools(10).len(), 4);
    assert!(st.top_tools(0).is_empty());
}

#[test]
fn tallies_list_only_positive_counts() {
    let es = vec![result("only_result", false), call("x"), result("x", true)];
    let st = calculate_tool_stats(&es);
    assert_eq!(st.calls.entries.len(), 1);
    assert_eq!(st.calls.entries[0], ("x".to_string(), 1));
    assert_eq!(st.success.entries, vec![("only_result".to_string(), 1)]);
    assert_eq!(st.errors.entries, vec![("x".to_string(), 1)]);
    assert!(st.calls.entries.iter().all(|(_, c)| *c > 0));
}

#[test]
fn by_agent_lists_only_agents_reporting_a_total() {
    let es = vec![response(None, Some(100)), response(Some("forecaster"), Some(100))];
    let ts = calculate_token_stats(&es);
    assert_eq!(ts.total_tokens, 200);
    assert_eq!(ts.total_calls, 2);
    assert_eq!(ts.by_agent.entries, vec![("forecaster".to_string(), 100)]);

    let es = vec![response(Some("quiet"), None), response(Some("zero"), Some(0))];
    let ts = calculate_token_stats(&es);
    assert_eq!(ts.by_agent.entries, vec![("zero".to_string(), 0)]);
}
