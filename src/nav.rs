use crate::event::LogEntry;
use crate::stats::{
    agent_tokens_of, calculate_token_stats, calculate_tool_stats, calls_of, capped,
    errors_of, reports_of, responses_of, successes_of, tokens_of, TokenStats, ToolStats,
};
use vstd::prelude::*;

verus! {

/// Which layout the timeline is shown in.
#[derive(Clone, Copy, Debug, PartialEq, Eq, Structural)]
pub enum ViewMode {
    Timeline,
    Details,
}

/// Which kind of record the timeline lists.
#[derive(Clone, Copy, Debug, PartialEq, Eq, Structural)]
pub enum EventFilter {
    All,
    LlmResponse,
    ToolCall,
    ToolResult,
}

/// One input symbol of the viewer.
#[derive(Clone, Copy, Debug, PartialEq, Eq, Structural)]
pub enum Key {
    Quit,
    Digit(char),
    MoveDown,
    MoveUp,
    ScrollDetailUp,
    ScrollDetailDown,
    ToggleView,
    JumpTop,
    JumpBottom,
    CycleFilter,
    Cancel,
}

/// The viewer's state: the records, their statistics, and where the operator is.
///
/// `selected_index` and `scroll_offset` index the full record list, whatever
/// the filter.
#[derive(Clone, Debug)]
pub struct AppState {
    pub entries: Vec<LogEntry>,
    pub selected_index: usize,
    pub scroll_offset: usize,
    pub details_scroll_offset: usize,
    pub tool_stats: ToolStats,
    pub token_stats: TokenStats,
    pub view_mode: ViewMode,
    pub filter_event_type: EventFilter,
    pub count_prefix: Vec<char>,
}

/// A decimal digit.
pub open spec fn is_digit(c: char) -> bool {
    '0' <= c && c <= '9'
}

/// The value of a decimal digit.
pub open spec fn digit_value(c: char) -> nat {
    (c as u32 - '0' as u32) as nat
}

/// The value of a string of decimal digits.
pub open spec fn digits_value(s: Seq<char>) -> nat
    decreases s.len(),
{
    if s.len() == 0 {
        0
    } else {
        digits_value(s.drop_last()) * 10 + digit_value(s.last())
    }
}

/// The count a pending prefix stands for: its value where it is a
/// non-empty string of digits whose value fits in `usize`, else one.
pub open spec fn repeat_count(s: Seq<char>) -> nat {
    if s.len() > 0 && (forall|i: int| 0 <= i < s.len() ==> is_digit(#[trigger] s[i]))
        && digits_value(s) <= usize::MAX {
        digits_value(s)
    } else {
        1
    }
}

/// The index of the last record, or zero where there is none.
pub open spec fn last_index(len: nat) -> int {
    if len == 0 {
        0
    } else {
        len - 1
    }
}

/// The filter that follows `f` in the cycle.
pub open spec fn next_filter(f: EventFilter) -> EventFilter {
    match f {
        EventFilter::All => EventFilter::LlmResponse,
        EventFilter::LlmResponse => EventFilter::ToolCall,
        EventFilter::ToolCall => EventFilter::ToolResult,
        EventFilter::ToolResult => EventFilter::All,
    }
}

/// The other layout.
pub open spec fn other_mode(m: ViewMode) -> ViewMode {
    match m {
        ViewMode::Timeline => ViewMode::Details,
        ViewMode::Details => ViewMode::Timeline,
    }
}

/// The selection after `n` steps down from `sel` among `len` records.
pub open spec fn stepped_down(sel: int, n: nat, len: nat) -> int {
    if sel >= last_index(len) {
        sel
    } else if sel + n > last_index(len) {
        last_index(len)
    } else {
        sel + n
    }
}

/// The selection after `n` steps up from `sel`.
pub open spec fn stepped_up(sel: int, n: nat) -> int {
    if sel - n < 0 {
        0
    } else {
        sel - n
    }
}

/// The selected index after `key` in state `s`.
pub open spec fn next_selected(s: AppState, key: Key) -> int {
    match key {
        Key::MoveDown => stepped_down(
            s.selected_index as int,
            repeat_count(s.count_prefix@),
            s.entries.len() as nat,
        ),
        Key::MoveUp => stepped_up(s.selected_index as int, repeat_count(s.count_prefix@)),
        Key::JumpTop => 0,
        Key::JumpBottom => last_index(s.entries.len() as nat),
        Key::CycleFilter => 0,
        _ => s.selected_index as int,
    }
}

/// The scroll offset after `key` in state `s`, with `height` rows visible.
pub open spec fn next_scroll(s: AppState, key: Key, height: nat) -> int {
    let sel = next_selected(s, key);
    match key {
        Key::MoveDown => if sel >= s.scroll_offset + height {
            sel - height + 1
        } else {
            s.scroll_offset as int
        },
        Key::MoveUp => if sel < s.scroll_offset {
            sel
        } else {
            s.scroll_offset as int
        },
        Key::JumpTop => 0,
        Key::JumpBottom => if s.entries.len() > height {
            s.entries.len() - height
        } else {
            0
        },
        Key::CycleFilter => 0,
        _ => s.scroll_offset as int,
    }
}

/// The detail scroll offset after `key` in state `s`.
pub open spec fn next_details(s: AppState, key: Key) -> int {
    match key {
        Key::MoveDown => 0,
        Key::MoveUp => 0,
        Key::ScrollDetailUp => if s.details_scroll_offset == 0 {
            0
        } else {
            s.details_scroll_offset - 1
        },
        Key::ScrollDetailDown => if s.details_scroll_offset == usize::MAX {
            usize::MAX as int
        } else {
            s.details_scroll_offset + 1
        },
        _ => s.details_scroll_offset as int,
    }
}

/// The layout after `key` in state `s`.
pub open spec fn next_mode(s: AppState, key: Key) -> ViewMode {
    match key {
        Key::ToggleView => other_mode(s.view_mode),
        _ => s.view_mode,
    }
}

/// The filter after `key` in state `s`.
pub open spec fn next_filter_after(s: AppState, key: Key) -> EventFilter {
    match key {
        Key::CycleFilter => next_filter(s.filter_event_type),
        _ => s.filter_event_type,
    }
}

/// The pending count prefix after `key` in state `s`: a digit is appended,
/// quitting leaves it, anything else clears it.
pub open spec fn next_prefix(s: AppState, key: Key) -> Seq<char> {
    match key {
        Key::Digit(c) => if is_digit(c) {
            s.count_prefix@.push(c)
        } else {
            Seq::empty()
        },
        Key::Quit => s.count_prefix@,
        _ => Seq::empty(),
    }
}

proof fn lemma_digits_value_prefix(s: Seq<char>, k: int)
    requires
        0 <= k <= s.len(),
        forall|i: int| 0 <= i < s.len() ==> is_digit(#[trigger] s[i]),
    ensures
        digits_value(s.subrange(0, k)) <= digits_value(s),
    decreases s.len() - k,
{
    if k < s.len() {
        let t = s.subrange(0, k + 1);
        assert(t.drop_last() =~= s.subrange(0, k));
        assert(digits_value(t) >= digits_value(s.subrange(0, k))) by (nonlinear_arith)
            requires
                digits_value(t) == digits_value(t.drop_last()) * 10 + digit_value(t.last()),
                t.drop_last() == s.subrange(0, k),
        ;
        lemma_digits_value_prefix(s, k + 1);
    } else {
        assert(s.subrange(0, k) =~= s);
    }
}

/// The count a pending prefix stands for: its decimal value, or one where it
/// is empty, holds a non-digit, or does not fit in `usize`.
pub fn parse_count(prefix: &Vec<char>) -> (r: usize)
    ensures
        r == repeat_count(prefix@),
{
    if prefix.len() == 0 {
        return 1;
    }
    let mut value: usize = 0;
    let mut i: usize = 0;
    assert(prefix@.subrange(0, 0) =~= Seq::<char>::empty());
    while i < prefix.len()
        invariant
            0 < prefix.len(),
            i <= prefix.len(),
            forall|j: int| 0 <= j < i ==> is_digit(#[trigger] prefix@[j]),
            value == digits_value(prefix@.subrange(0, i as int)),
        decreases prefix.len() - i,
    {
        let c = prefix[i];
        if !('0' <= c && c <= '9') {
            return 1;
        }
        let d = (c as u32 - '0' as u32) as usize;
        let ghost t = prefix@.subrange(0, i + 1);
        proof {
            assert(t.drop_last() =~= prefix@.subrange(0, i as int));
        }
        let next = match value.checked_mul(10) {
            Some(v) => v.checked_add(d),
            None => None,
        };
        match next {
            Some(v) => {
                value = v;
            },
            None => {
                proof {
                    assert(digits_value(t) > usize::MAX);
                    if forall|j: int| 0 <= j < prefix.len() ==> is_digit(#[trigger] prefix@[j]) {
                        lemma_digits_value_prefix(prefix@, i + 1);
                    }
                }
                return 1;
            },
        }
        i += 1;
    }
    assert(prefix@.subrange(0, i as int) =~= prefix@);
    value
}

impl AppState {
    /// The selection lies within the record list, and the first visible row
    /// is not below it.
    pub open spec fn wf(self) -> bool {
        &&& self.selected_index <= last_index(self.entries.len() as nat)
        &&& self.scroll_offset <= self.selected_index
    }

    /// The initial state over `entries`: first record selected, timeline
    /// layout, no filter, no pending count, statistics derived from the records.
    pub fn new(entries: Vec<LogEntry>) -> (r: AppState)
        ensures
            r.entries@ == entries@,
            r.wf(),
            r.selected_index == 0,
            r.scroll_offset == 0,
            r.details_scroll_offset == 0,
            r.view_mode == ViewMode::Timeline,
            r.filter_event_type == EventFilter::All,
            r.count_prefix@ == Seq::<char>::empty(),
            forall|name: Seq<char>|
                #[trigger] r.tool_stats.calls.value(name) == calls_of(entries@, name),
            forall|name: Seq<char>|
                #[trigger] r.tool_stats.success.value(name) == successes_of(entries@, name),
            forall|name: Seq<char>|
                #[trigger] r.tool_stats.errors.value(name) == errors_of(entries@, name),
            r.token_stats.total_tokens == capped(tokens_of(entries@) as int),
            r.token_stats.total_calls == responses_of(entries@),
            forall|agent: Seq<char>|
                #[trigger] r.token_stats.by_agent.value(agent) == capped(
                    agent_tokens_of(entries@, agent) as int,
                ),
            r.tool_stats.calls.wf(),
            r.tool_stats.success.wf(),
            r.tool_stats.errors.wf(),
            r.token_stats.by_agent.wf(),
            forall|name: Seq<char>|
                #[trigger] r.tool_stats.calls.listed(name) == (calls_of(entries@, name) > 0),
            forall|name: Seq<char>|
                #[trigger] r.tool_stats.success.listed(name) == (successes_of(entries@, name) > 0),
            forall|name: Seq<char>|
                #[trigger] r.tool_stats.errors.listed(name) == (errors_of(entries@, name) > 0),
            forall|agent: Seq<char>|
                #[trigger] r.token_stats.by_agent.listed(agent) == (reports_of(entries@, agent) > 0),
    {
        let tool_stats = calculate_tool_stats(&entries);
        let token_stats = calculate_token_stats(&entries);
        AppState {
            entries,
            selected_index: 0,
            scroll_offset: 0,
            details_scroll_offset: 0,
            tool_stats,
            token_stats,
            view_mode: ViewMode::Timeline,
            filter_event_type: EventFilter::All,
            count_prefix: Vec::new(),
        }
    }

    /// Applies one input symbol, with `viewport_height` timeline rows visible.
    ///
    /// Returns false for the quit symbol, which changes nothing; every other
    /// symbol is applied and true is returned.  Moves are clamped to the
    /// record list and never fail.
    pub fn handle_key(&mut self, key: Key, viewport_height: usize) -> (keep_going: bool)
        requires
            viewport_height > 0,
        ensures
            keep_going == !(key is Quit),
            old(self).wf() ==> final(self).wf(),
            final(self).entries == old(self).entries,
            final(self).tool_stats == old(self).tool_stats,
            final(self).token_stats == old(self).token_stats,
            final(self).selected_index == next_selected(*old(self), key),
            final(self).scroll_offset == next_scroll(*old(self), key, viewport_height as nat),
            final(self).details_scroll_offset == next_details(*old(self), key),
            final(self).view_mode == next_mode(*old(self), key),
            final(self).filter_event_type == next_filter_after(*old(self), key),
            final(self).count_prefix@ == next_prefix(*old(self), key),
    {
        match key {
            Key::Quit => {
                return false;
            },
            Key::Digit(c) => {
                if '0' <= c && c <= '9' {
                    self.count_prefix.push(c);
                } else {
                    self.count_prefix.clear();
                }
            },
            Key::MoveDown => {
                let count = parse_count(&self.count_prefix);
                self.count_prefix.clear();
                let last = self.entries.len().saturating_sub(1);
                if self.selected_index < last {
                    if count > last - self.selected_index {
                        self.selected_index = last;
                    } else {
                        self.selected_index = self.selected_index + count;
                    }
                }
                self.details_scroll_offset = 0;
                if self.selected_index >= self.scroll_offset
                    && self.selected_index - self.scroll_offset >= viewport_height {
                    self.scroll_offset = self.selected_index - (viewport_height - 1);
                }
            },
            Key::MoveUp => {
                let count = parse_count(&self.count_prefix);
                self.count_prefix.clear();
                self.selected_index = self.selected_index.saturating_sub(count);
                self.details_scroll_offset = 0;
                if self.selected_index < self.scroll_offset {
                    self.scroll_offset = self.selected_index;
                }
            },
            Key::ScrollDetailUp => {
                self.count_prefix.clear();
                self.details_scroll_offset = self.details_scroll_offset.saturating_sub(1);
            },
            Key::ScrollDetailDown => {
                self.count_prefix.clear();
                self.details_scroll_offset = self.details_scroll_offset.saturating_add(1);
            },
            Key::ToggleView => {
                self.count_prefix.clear();
                self.view_mode = match self.view_mode {
                    ViewMode::Timeline => ViewMode::Details,
                    ViewMode::Details => ViewMode::Timeline,
                };
            },
            Key::JumpTop => {
                self.count_prefix.clear();
                self.selected_index = 0;
                self.scroll_offset = 0;
            },
            Key::JumpBottom => {
                self.count_prefix.clear();
                self.selected_index = self.entries.len().saturating_sub(1);
                self.scroll_offset = self.entries.len().saturating_sub(viewport_height);
            },
            Key::CycleFilter => {
                self.count_prefix.clear();
                self.filter_event_type = match self.filter_event_type {
                    EventFilter::All => EventFilter::LlmResponse,
                    EventFilter::LlmResponse => EventFilter::ToolCall,
                    EventFilter::ToolCall => EventFilter::ToolResult,
                    EventFilter::ToolResult => EventFilter::All,
                };
                self.selected_index = 0;
                self.scroll_offset = 0;
            },
            Key::Cancel => {
                self.count_prefix.clear();
            },
        }
        true
    }
}

/// Cycling the filter re-anchors at the top, wherever the selection was.
pub proof fn lemma_filter_cycle_reanchors(s: AppState, height: nat)
    ensures
        next_selected(s, Key::CycleFilter) == 0,
        next_scroll(s, Key::CycleFilter, height) == 0,
        next_filter_after(s, Key::CycleFilter) == next_filter(s.filter_event_type),
        next_prefix(s, Key::CycleFilter) == Seq::<char>::empty(),
{
}

/// Four cycles of the filter come back to where they started.
pub proof fn lemma_filter_cycle_period(f: EventFilter)
    ensures
        next_filter(next_filter(next_filter(next_filter(f)))) == f,
        next_filter(f) != f,
{
}

/// A pending prefix of digits moves the selection by its value, and is then
/// cleared; a cancel clears it and leaves the selection where it was.
pub proof fn lemma_count_prefix_consumed(s: AppState)
    requires
        s.count_prefix@.len() > 0,
        forall|i: int| 0 <= i < s.count_prefix@.len() ==> is_digit(#[trigger] s.count_prefix@[i]),
        digits_value(s.count_prefix@) <= usize::MAX,
    ensures
        next_selected(s, Key::MoveDown) == stepped_down(
            s.selected_index as int,
            digits_value(s.count_prefix@),
            s.entries.len() as nat,
        ),
        next_selected(s, Key::MoveUp) == stepped_up(
            s.selected_index as int,
            digits_value(s.count_prefix@),
        ),
        next_prefix(s, Key::MoveDown) == Seq::<char>::empty(),
        next_prefix(s, Key::MoveUp) == Seq::<char>::empty(),
        next_prefix(s, Key::Cancel) == Seq::<char>::empty(),
        next_selected(s, Key::Cancel) == s.selected_index,
{
}

/// Moves stay within the record list: up never goes below the first record,
/// down never past the last one, and a selection already within the list
/// stays within it.
pub proof fn lemma_moves_clamped(s: AppState)
    requires
        s.selected_index <= last_index(s.entries.len() as nat),
    ensures
        0 <= next_selected(s, Key::MoveUp) <= s.selected_index,
        s.selected_index <= next_selected(s, Key::MoveDown) <= last_index(s.entries.len() as nat),
        0 <= next_selected(s, Key::JumpBottom) <= last_index(s.entries.len() as nat),
{
}

/// The kind tag a filter keeps, if it keeps one kind only.
pub open spec fn filter_tag(f: EventFilter) -> Option<Seq<char>> {
    match f {
        EventFilter::All => None,
        EventFilter::LlmResponse => Some("llm_response"@),
        EventFilter::ToolCall => Some("tool_call"@),
        EventFilter::ToolResult => Some("tool_result"@),
    }
}

/// The filter keeps the record `e`.
pub open spec fn kept(e: LogEntry, f: EventFilter) -> bool {
    match filter_tag(f) {
        None => true,
        Some(t) => e.event_type@ == t,
    }
}

/// The indices of the records of `es` that the filter keeps, in order.
pub open spec fn kept_indices(es: Seq<LogEntry>, f: EventFilter) -> Seq<int>
    decreases es.len(),
{
    if es.len() == 0 {
        Seq::empty()
    } else if kept(es.last(), f) {
        kept_indices(es.drop_last(), f).push(es.len() - 1)
    } else {
        kept_indices(es.drop_last(), f)
    }
}

/// Whether the filter keeps the record `entry`.
pub fn matches_filter(entry: &LogEntry, filter: EventFilter) -> (r: bool)
    ensures
        r == kept(*entry, filter),
{
    let tag = match filter {
        EventFilter::All => {
            return true;
        },
        EventFilter::LlmResponse => "llm_response".to_owned(),
        EventFilter::ToolCall => "tool_call".to_owned(),
        EventFilter::ToolResult => "tool_result".to_owned(),
    };
    entry.event_type == tag
}

impl AppState {
    /// The indices of the records the timeline shows: those the filter keeps,
    /// from the `scroll_offset`-th of them on, at most `height` of them.
    pub fn visible_rows(&self, height: usize) -> (r: Vec<usize>)
        ensures
            ({
                let all = kept_indices(self.entries@, self.filter_event_type);
                let from = if self.scroll_offset > all.len() {
                    all.len() as int
                } else {
                    self.scroll_offset as int
                };
                let to = if from + height > all.len() {
                    all.len() as int
                } else {
                    from + height
                };
                &&& r@.len() == to - from
                &&& forall|i: int| 0 <= i < r@.len() ==> r@[i] as int == all[from + i]
            }),
    {
        let mut all: Vec<usize> = Vec::new();
        let mut i: usize = 0;
        assert(self.entries@.subrange(0, 0) =~= Seq::<LogEntry>::empty());
        while i < self.entries.len()
            invariant
                i <= self.entries.len(),
                all@.len() == kept_indices(
                    self.entries@.subrange(0, i as int),
                    self.filter_event_type,
                ).len(),
                forall|j: int|
                    0 <= j < all@.len() ==> all@[j] as int == kept_indices(
                        self.entries@.subrange(0, i as int),
                        self.filter_event_type,
                    )[j],
            decreases self.entries.len() - i,
        {
            let ghost prefix = self.entries@.subrange(0, i + 1);
            proof {
                assert(prefix.drop_last() =~= self.entries@.subrange(0, i as int));
            }
            if matches_filter(&self.entries[i], self.filter_event_type) {
                all.push(i);
            }
            i += 1;
        }
        assert(self.entries@.subrange(0, self.entries.len() as int) =~= self.entries@);
        let from = if self.scroll_offset > all.len() {
            all.len()
        } else {
            self.scroll_offset
        };
        let to = if height > all.len() - from {
            all.len()
        } else {
            from + height
        };
        let mut rows: Vec<usize> = Vec::new();
        let mut k: usize = from;
        while k < to
            invariant
                from <= k <= to <= all@.len(),
                rows@.len() == k - from,
                forall|j: int| 0 <= j < rows@.len() ==> rows@[j] == all@[from + j],
            decreases to - k,
        {
            rows.push(all[k]);
            k += 1;
        }
        rows
    }
}

/// Digits and cancels never move anything: only the pending prefix changes,
/// and a cancel empties it.
pub proof fn lemma_prefix_keys_do_not_move(s: AppState, key: Key, height: nat)
    requires
        key is Digit || key is Cancel,
    ensures
        next_selected(s, key) == s.selected_index,
        next_scroll(s, key, height) == s.scroll_offset,
        next_details(s, key) == s.details_scroll_offset,
        next_mode(s, key) == s.view_mode,
        next_filter_after(s, key) == s.filter_event_type,
        key is Cancel ==> next_prefix(s, key) == Seq::<char>::empty(),
{
}

} // verus!
