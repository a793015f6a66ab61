use log_analyzer::event::{decode, LogEntry};
use log_analyzer::json::JsonValue;
use log_analyzer::nav::{matches_filter, parse_count, AppState, EventFilter, Key, ViewMode};

const HEIGHT: usize = 20;

fn s(x: &str) -> JsonValue {
    JsonValue::Str(x.to_string())
}

fn event(kind: &str) -> LogEntry {
    decode(&JsonValue::object(vec![
        ("timestamp".to_string(), s("2024-01-01T00:00:00Z")),
        ("event_type".to_string(), s(kind)),
    ]))
    .unwrap()
}

fn state(n: usize) -> AppState {
    let kinds = ["llm_response", "tool_call", "tool_result", "agent_action"];
    AppState::new((0..n).map(|i| event(kinds[i % kinds.len()])).collect())
}

fn press(st: &mut AppState, keys: &[Key]) {
    for k in keys {
        assert!(st.handle_key(*k, HEIGHT));
    }
}

#[test]
fn initial_state() {
    let st = state(3);
    assert_eq!(st.selected_index, 0);
    assert_eq!(st.scroll_offset, 0);
    assert_eq!(st.details_scroll_offset, 0);
    assert_eq!(st.view_mode, ViewMode::Timeline);
    assert_eq!(st.filter_event_type, EventFilter::All);
    assert!(st.count_prefix.is_empty());
    assert_eq!(st.token_stats.total_calls, 0);
}

#[test]
fn move_up_with_count_clamps_at_zero() {
    let mut st = state(10);
    press(&mut st, &[Key::Digit('5'), Key::MoveUp]);
    assert_eq!(st.selected_index, 0);
    press(&mut st, &[Key::MoveDown, Key::MoveDown, Key::MoveDown, Key::MoveDown, Key::MoveDown]);
    assert_eq!(st.selected_index, 5);
    press(&mut st, &[Key::Digit('1'), Key::Digit('0'), Key::MoveUp]);
    assert_eq!(st.selected_index, 0);
    assert_eq!(st.scroll_offset, 0);
}

#[test]
fn cycling_filter_reanchors_at_top() {
    let mut st = state(10);
    press(&mut st, &[Key::Digit('7'), Key::MoveDown]);
    assert_eq!(st.selected_index, 7);
    press(&mut st, &[Key::CycleFilter]);
    assert_eq!(st.selected_index, 0);
    assert_eq!(st.scroll_offset, 0);
    assert_eq!(st.filter_event_type, EventFilter::LlmResponse);
    press(&mut st, &[Key::CycleFilter]);
    assert_eq!(st.filter_event_type, EventFilter::ToolCall);
    press(&mut st, &[Key::CycleFilter]);
    assert_eq!(st.filter_event_type, EventFilter::ToolResult);
    press(&mut st, &[Key::CycleFilter]);
    assert_eq!(st.filter_event_type, EventFilter::All);
}

#[test]
fn count_prefix_twelve_moves_twelve() {
    let mut st = state(30);
    press(&mut st, &[Key::Digit('1'), Key::Digit('2')]);
    assert_eq!(st.count_prefix, vec!['1', '2']);
    press(&mut st, &[Key::MoveDown]);
    assert_eq!(st.selected_index, 12);
    assert!(st.count_prefix.is_empty());

    let mut short = state(5);
    press(&mut short, &[Key::Digit('1'), Key::Digit('2'), Key::MoveDown]);
    assert_eq!(short.selected_index, 4);
}

#[test]
fn cancel_clears_prefix_without_moving() {
    let mut st = state(30);
    press(&mut st, &[Key::MoveDown, Key::Digit('3'), Key::Cancel]);
    assert_eq!(st.selected_index, 1);
    assert!(st.count_prefix.is_empty());
    press(&mut st, &[Key::MoveDown]);
    assert_eq!(st.selected_index, 2);
    press(&mut st, &[Key::Digit('4'), Key::Digit('x')]);
    assert!(st.count_prefix.is_empty());
}

#[test]
fn scroll_follows_selection() {
    let mut st = state(50);
    press(&mut st, &[Key::Digit('2'), Key::Digit('5'), Key::MoveDown]);
    assert_eq!(st.selected_index, 25);
    assert_eq!(st.scroll_offset, 6);
    press(&mut st, &[Key::Digit('2'), Key::Digit('0'), Key::MoveUp]);
    assert_eq!(st.selected_index, 5);
    assert_eq!(st.scroll_offset, 5);
}

#[test]
fn jump_to_bottom_and_top() {
    let mut st = state(50);
    press(&mut st, &[Key::JumpBottom]);
    assert_eq!(st.selected_index, 49);
    assert_eq!(st.scroll_offset, 30);
    press(&mut st, &[Key::JumpTop]);
    assert_eq!(st.selected_index, 0);
    assert_eq!(st.scroll_offset, 0);
    let mut small = state(5);
    press(&mut small, &[Key::JumpBottom]);
    assert_eq!(small.selected_index, 4);
    assert_eq!(small.scroll_offset, 0);
}

#[test]
fn detail_scroll_and_view_toggle() {
    let mut st = state(5);
    press(&mut st, &[Key::ScrollDetailUp]);
    assert_eq!(st.details_scroll_offset, 0);
    press(&mut st, &[Key::ScrollDetailDown, Key::ScrollDetailDown, Key::ScrollDetailUp]);
    assert_eq!(st.details_scroll_offset, 1);
    press(&mut st, &[Key::MoveDown]);
    assert_eq!(st.details_scroll_offset, 0);
    press(&mut st, &[Key::ToggleView]);
    assert_eq!(st.view_mode, ViewMode::Details);
    press(&mut st, &[Key::ToggleView]);
    assert_eq!(st.view_mode, ViewMode::Timeline);
}

#[test]
fn quit_changes_nothing() {
    let mut st = state(5);
    press(&mut st, &[Key::Digit('2')]);
    assert!(!st.handle_key(Key::Quit, HEIGHT));
    assert_eq!(st.count_prefix, vec!['2']);
    assert_eq!(st.selected_index, 0);
}

#[test]
fn move_past_end_is_noop() {
    let mut st = state(3);
    press(&mut st, &[Key::MoveDown, Key::MoveDown, Key::MoveDown, Key::MoveDown]);
    assert_eq!(st.selected_index, 2);
    let mut empty = AppState::new(vec![]);
    press(&mut empty, &[Key::MoveDown, Key::JumpBottom, Key::MoveUp]);
    assert_eq!(empty.selected_index, 0);
}

#[test]
fn parse_count_values() {
    assert_eq!(parse_count(&vec![]), 1);
    assert_eq!(parse_count(&vec!['1', '2']), 12);
    assert_eq!(parse_count(&vec!['0']), 0);
    assert_eq!(parse_count(&vec!['9'; 40]), 1);
    assert_eq!(parse_count(&vec!['1', 'a']), 1);
}

#[test]
fn visible_rows_follow_filter_and_scroll() {
    let mut st = state(10);
    assert_eq!(st.visible_rows(4), vec![0, 1, 2, 3]);
    press(&mut st, &[Key::CycleFilter, Key::CycleFilter]);
    assert_eq!(st.filter_event_type, EventFilter::ToolCall);
    assert_eq!(st.visible_rows(20), vec![1, 5, 9]);
    st.scroll_offset = 1;
    assert_eq!(st.visible_rows(1), vec![5]);
    st.scroll_offset = 7;
    assert!(st.visible_rows(5).is_empty());
    assert!(matches_filter(&event("tool_call"), EventFilter::ToolCall));
    assert!(!matches_filter(&event("tool_call"), EventFilter::LlmResponse));
    assert!(matches_filter(&event("anything"), EventFilter::All));
}

#[test]
fn several_digits_then_cancel_leave_state() {
    let mut st = state(30);
    press(&mut st, &[Key::MoveDown, Key::ToggleView, Key::ScrollDetailDown]);
    press(&mut st, &[Key::Digit('1'), Key::Digit('2'), Key::Digit('3'), Key::Cancel]);
    assert!(st.count_prefix.is_empty());
    assert_eq!(st.selected_index, 1);
    assert_eq!(st.scroll_offset, 0);
    assert_eq!(st.details_scroll_offset, 1);
    assert_eq!(st.view_mode, ViewMode::Details);
    assert_eq!(st.filter_event_type, EventFilter::All);
}
