//! The state of the filter prompt: the query being typed, the applied query,
//! errors, the history of submitted queries and reverse search through it.
use vstd::prelude::*;
use crate::filter::{
    ErrorV, FilterError, FilterQuery, FilterSegment, LineFormatTemplate, PartV, SegmentV,
    parse_filter_query, query_display, query_holds, query_of, query_wf,
};
use crate::input::LineSource;
use crate::keys::{KeyCode, KeyEvent, TextInput, has_control, key_edit};
use crate::style::{Color, Style, plain_style};
use crate::text::{seq_contains, str_contains, strings_view};

verus! {

/// A line kept by the viewer: its text, the time it arrived and its source.
#[derive(Debug, Clone)]
pub struct LogEntry {
    pub text: String,
    pub timestamp: String,
    pub source: LineSource,
}

/// The prefix shown before lines from standard error.
pub open spec fn stderr_prefix() -> Seq<char> {
    seq!['[', 's', 't', 'd', 'e', 'r', 'r', ']', ' ']
}

/// The prefix shown before the viewer's own messages.
pub open spec fn system_prefix() -> Seq<char> {
    seq!['[', 'l', 'o', 'g', 'q', ']', ' ']
}

impl LogEntry {
    /// The label drawn before the line, its length in bytes, and its style:
    /// nothing for standard output, a red `[stderr] ` for standard error, a
    /// yellow `[logq] ` for the viewer's own messages.
    pub fn source_prefix(&self) -> (r: (&'static str, usize, Style))
        ensures
            match self.source {
                LineSource::Stdout => r.0@ == Seq::<char>::empty() && r.1 == 0 && r.2 == plain_style(),
                LineSource::Stderr => r.0@ == stderr_prefix() && r.1 == 9 && r.2 == (Style {
                    fg: Some(Color::Red),
                    ..plain_style()
                }),
                LineSource::System => r.0@ == system_prefix() && r.1 == 7 && r.2 == (Style {
                    fg: Some(Color::Yellow),
                    ..plain_style()
                }),
            },
    {
        match self.source {
            LineSource::Stdout => {
                proof {
                    reveal_strlit("");
                }
                ("", 0, Style::new())
            },
            LineSource::Stderr => {
                proof {
                    reveal_strlit("[stderr] ");
                }
                ("[stderr] ", 9, Style::new().fg(Color::Red))
            },
            LineSource::System => {
                proof {
                    reveal_strlit("[logq] ");
                }
                ("[logq] ", 7, Style::new().fg(Color::Yellow))
            },
        }
    }
}

/// How many queries the history keeps.
pub const HISTORY_LIMIT: usize = 100;

/// The filter prompt's state.
pub struct FilterState {
    pub filter_input: Option<TextInput>,
    pub filter_query: Option<FilterQuery>,
    pub filter_error: Option<FilterError>,
    pub live_filter_query: Option<FilterQuery>,
    pub live_filter_error: Option<FilterError>,
    pub filter_history: Vec<String>,
    pub filter_history_index: Option<usize>,
    pub filter_draft: Option<TextInput>,
    pub history_search_pattern: Option<String>,
    pub history_search_original_input: Option<TextInput>,
    pub history_search_failed: bool,
    pub history_search_start: Option<usize>,
    pub filter_raw_input: Option<String>,
}

/// The value of the filter prompt's state.
pub struct FilterStateV {
    pub input: Option<Seq<char>>,
    pub query: Option<Seq<SegmentV>>,
    pub error: Option<ErrorV>,
    pub live_query: Option<Seq<SegmentV>>,
    pub live_error: Option<ErrorV>,
    pub history: Seq<Seq<char>>,
    pub history_index: Option<int>,
    pub draft: Option<Seq<char>>,
    pub search_pattern: Option<Seq<char>>,
    pub search_original: Option<Seq<char>>,
    pub search_failed: bool,
    pub search_start: Option<int>,
    pub raw_input: Option<Seq<char>>,
}

pub open spec fn input_view(o: Option<TextInput>) -> Option<Seq<char>> {
    match o {
        Some(t) => Some(t@),
        None => None,
    }
}

pub open spec fn query_view(o: Option<FilterQuery>) -> Option<Seq<SegmentV>> {
    match o {
        Some(q) => Some(q@),
        None => None,
    }
}

pub open spec fn error_view(o: Option<FilterError>) -> Option<ErrorV> {
    match o {
        Some(e) => Some(e@),
        None => None,
    }
}

pub open spec fn string_view(o: Option<String>) -> Option<Seq<char>> {
    match o {
        Some(s) => Some(s@),
        None => None,
    }
}

pub open spec fn index_view(o: Option<usize>) -> Option<int> {
    match o {
        Some(i) => Some(i as int),
        None => None,
    }
}

impl View for FilterState {
    type V = FilterStateV;

    open spec fn view(&self) -> FilterStateV {
        FilterStateV {
            input: input_view(self.filter_input),
            query: query_view(self.filter_query),
            error: error_view(self.filter_error),
            live_query: query_view(self.live_filter_query),
            live_error: error_view(self.live_filter_error),
            history: strings_view(self.filter_history@),
            history_index: index_view(self.filter_history_index),
            draft: input_view(self.filter_draft),
            search_pattern: string_view(self.history_search_pattern),
            search_original: input_view(self.history_search_original_input),
            search_failed: self.history_search_failed,
            search_start: index_view(self.history_search_start),
            raw_input: string_view(self.filter_raw_input),
        }
    }
}

/// The shape every reachable state has: queries are well formed, and history
/// positions point into the history.
pub open spec fn state_wf(s: FilterStateV) -> bool {
    &&& (s.query matches Some(q) ==> query_wf(q))
    &&& (s.live_query matches Some(q) ==> query_wf(q))
    &&& (s.history_index matches Some(i) ==> 0 <= i < s.history.len())
    &&& (s.search_start matches Some(i) ==> 0 <= i < s.history.len())
}

/// The query in force: the live one while typing, the applied one otherwise.
pub open spec fn active_query(s: FilterStateV) -> Option<Seq<SegmentV>> {
    if s.input is Some {
        s.live_query
    } else {
        s.query
    }
}

/// Re-reads the typed text as a query: a non-empty query becomes the live
/// query, an empty one clears it, and an error is recorded while the previous
/// live query stays.
pub open spec fn live_updated(s: FilterStateV) -> FilterStateV {
    match s.input {
        None => s,
        Some(v) => match query_of(v) {
            Ok(q) => if q.len() > 0 {
                FilterStateV { live_query: Some(q), live_error: None, ..s }
            } else {
                FilterStateV { live_query: None, live_error: None, ..s }
            },
            Err(e) => FilterStateV { live_error: Some(e), ..s },
        },
    }
}

/// Whether re-reading the typed text changes what is shown.
pub open spec fn live_invalidates(s: FilterStateV) -> bool {
    s.input matches Some(v) && query_of(v) is Ok
}

/// The reverse-search state cleared.
pub open spec fn search_cleared(s: FilterStateV) -> FilterStateV {
    FilterStateV {
        search_pattern: None,
        search_original: None,
        search_failed: false,
        search_start: None,
        ..s
    }
}

/// The prompt's history browsing and search cleared.
pub open spec fn input_state_reset(s: FilterStateV) -> FilterStateV {
    search_cleared(FilterStateV { draft: None, history_index: None, ..s })
}

/// `h` with `v` appended unless it is already the last entry, keeping at most
/// the newest hundred entries.
pub open spec fn history_pushed(h: Seq<Seq<char>>, v: Seq<char>) -> Seq<Seq<char>> {
    if h.len() > 0 && h.last() == v {
        h
    } else if h.len() + 1 > HISTORY_LIMIT {
        h.push(v).subrange(1, h.len() as int + 1)
    } else {
        h.push(v)
    }
}

/// Opening the prompt: it holds the text of the applied query as it was
/// typed, or else the applied query printed, or else nothing.
pub open spec fn input_started(s: FilterStateV) -> FilterStateV {
    let initial = match s.raw_input {
        Some(r) => r,
        None => match s.query {
            Some(q) => query_display(q),
            None => Seq::empty(),
        },
    };
    search_cleared(FilterStateV { input: Some(initial), history_index: None, draft: None, ..s })
}

/// Submitting the prompt, and whether the query was taken: a non-empty query
/// is applied, remembered as typed and added to the history; an empty one
/// clears the filter; an invalid one is reported and the prompt stays open.
pub open spec fn submitted(s: FilterStateV) -> (FilterStateV, bool) {
    match s.input {
        None => (input_state_reset(s), true),
        Some(v) => match query_of(v) {
            Ok(q) => if q.len() > 0 {
                (
                    input_state_reset(
                        FilterStateV {
                            input: None,
                            query: Some(q),
                            error: None,
                            live_query: None,
                            live_error: None,
                            raw_input: Some(v),
                            history: history_pushed(s.history, v),
                            ..s
                        },
                    ),
                    true,
                )
            } else {
                (
                    input_state_reset(
                        FilterStateV {
                            input: None,
                            query: None,
                            error: None,
                            live_query: None,
                            live_error: None,
                            raw_input: None,
                            ..s
                        },
                    ),
                    true,
                )
            },
            Err(e) => (FilterStateV { error: Some(e), live_error: Some(e), ..s }, false),
        },
    }
}

/// Closing the prompt without applying it.
pub open spec fn cancelled(s: FilterStateV) -> FilterStateV {
    input_state_reset(
        FilterStateV { input: None, error: None, live_query: None, live_error: None, ..s },
    )
}

/// Stepping back in the history: the first step keeps the typed text as a
/// draft; each step shows the previous entry.
pub open spec fn history_up(s: FilterStateV) -> FilterStateV {
    if s.history.len() == 0 {
        s
    } else {
        let s1 = if s.history_index is None {
            FilterStateV { draft: s.input, ..s }
        } else {
            s
        };
        let current = match s.history_index {
            Some(i) => i,
            None => s.history.len() as int,
        };
        if current > 0 {
            live_updated(
                FilterStateV {
                    history_index: Some(current - 1),
                    input: Some(s.history[current - 1]),
                    ..s1
                },
            )
        } else {
            s1
        }
    }
}

/// Stepping forward in the history; past the newest entry the draft (or an
/// empty prompt) comes back.
pub open spec fn history_down(s: FilterStateV) -> FilterStateV {
    if s.history.len() == 0 {
        s
    } else {
        let current = match s.history_index {
            Some(i) => i,
            None => s.history.len() as int,
        };
        if current < s.history.len() - 1 {
            live_updated(
                FilterStateV {
                    history_index: Some(current + 1),
                    input: Some(s.history[current + 1]),
                    ..s
                },
            )
        } else {
            live_updated(
                FilterStateV {
                    history_index: None,
                    input: Some(
                        match s.draft {
                            Some(d) => d,
                            None => Seq::empty(),
                        },
                    ),
                    ..s
                },
            )
        }
    }
}

/// The newest history entry in `[lo, hi)` that contains `pattern`.
pub open spec fn newest_match(h: Seq<Seq<char>>, pattern: Seq<char>, lo: int, hi: int) -> Option<int>
    decreases hi - lo,
{
    if hi <= lo {
        None
    } else if seq_contains(h[hi - 1], pattern) {
        Some(hi - 1)
    } else {
        newest_match(h, pattern, lo, hi - 1)
    }
}

/// Showing the history entry `i` as a search result.
pub open spec fn search_found(s: FilterStateV, i: int) -> FilterStateV {
    live_updated(
        FilterStateV { input: Some(s.history[i]), search_start: Some(i), search_failed: false, ..s },
    )
}

/// One step of reverse search: the search starts from the typed text; each
/// step finds the next older entry containing the pattern, wrapping around
/// to the newest, and reports a failure when none does.
pub open spec fn history_searched(s: FilterStateV) -> FilterStateV {
    if s.history.len() == 0 {
        s
    } else {
        let s1 = if s.search_pattern is None {
            FilterStateV { search_pattern: s.input, search_original: s.input, search_start: None, ..s }
        } else {
            s
        };
        let pattern = match s1.search_pattern {
            Some(p) => p,
            None => Seq::empty(),
        };
        let start = match s1.search_start {
            Some(i) => i,
            None => s.history.len() as int,
        };
        match newest_match(s.history, pattern, 0, start) {
            Some(i) => search_found(s1, i),
            None => match newest_match(s.history, pattern, start, s.history.len() as int) {
                Some(i) => search_found(s1, i),
                None => FilterStateV { search_failed: true, ..s1 },
            },
        }
    }
}

/// Searching again from the newest entry after the pattern changed; with no
/// match the text from before the search comes back.
pub open spec fn search_updated(s: FilterStateV) -> FilterStateV {
    let pattern = match s.search_pattern {
        Some(p) => p,
        None => Seq::empty(),
    };
    match newest_match(s.history, pattern, 0, s.history.len() as int) {
        Some(i) => search_found(s, i),
        None => live_updated(FilterStateV { search_failed: true, input: s.search_original, ..s }),
    }
}

pub proof fn lemma_newest_match(h: Seq<Seq<char>>, pattern: Seq<char>, lo: int, hi: int)
    ensures
        newest_match(h, pattern, lo, hi) matches Some(i) ==> lo <= i < hi && seq_contains(h[i], pattern),
        newest_match(h, pattern, lo, hi) is None ==> forall|j: int| lo <= j < hi ==> !seq_contains(#[trigger] h[j], pattern),
    decreases hi - lo,
{
    if hi > lo {
        lemma_newest_match(h, pattern, lo, hi - 1);
    }
}

impl FilterState {
    /// The prompt closed, nothing applied, empty history.
    pub fn new() -> (s: FilterState)
        ensures
            s@.input is None && s@.query is None && s@.error is None && s@.live_query is None,
            s@.live_error is None && s@.history == Seq::<Seq<char>>::empty(),
            s@.history_index is None && s@.draft is None && s@.search_pattern is None,
            s@.search_original is None && !s@.search_failed && s@.search_start is None,
            s@.raw_input is None,
            state_wf(s@),
    {
        let s = FilterState {
            filter_input: None,
            filter_query: None,
            filter_error: None,
            live_filter_query: None,
            live_filter_error: None,
            filter_history: Vec::new(),
            filter_history_index: None,
            filter_draft: None,
            history_search_pattern: None,
            history_search_original_input: None,
            history_search_failed: false,
            history_search_start: None,
            filter_raw_input: None,
        };
        assert(s@.history =~= Seq::<Seq<char>>::empty());
        s
    }

    /// Replaces the history with the lines of a saved history, unless there
    /// are none.
    pub fn set_loaded_history(&mut self, loaded: Vec<String>)
        requires
            state_wf(old(self)@),
            old(self)@.history_index is None,
            old(self)@.search_start is None,
        ensures
            final(self)@ == (if loaded@.len() > 0 {
                FilterStateV { history: strings_view(loaded@), ..old(self)@ }
            } else {
                old(self)@
            }),
            state_wf(final(self)@),
    {
        if loaded.len() > 0 {
            self.filter_history = loaded;
        }
    }

    /// The history as it is saved: the entries joined by line feeds.
    pub fn history_text(&self) -> (r: String)
        ensures
            r@ == crate::text::joined_lines(self@.history),
    {
        crate::text::join_lines(&self.filter_history)
    }

    /// The query in force.
    pub fn active_filter_query(&self) -> (r: Option<&FilterQuery>)
        ensures
            query_view(match r {
                Some(q) => Some(*q),
                None => None,
            }) == active_query(self@),
    {
        if self.filter_input.is_some() {
            match &self.live_filter_query {
                Some(q) => Some(q),
                None => None,
            }
        } else {
            match &self.filter_query {
                Some(q) => Some(q),
                None => None,
            }
        }
    }

    /// Whether `text` passes the query in force (every line passes when there
    /// is none).
    pub fn line_matches_filter(&self, text: &str) -> (r: bool)
        ensures
            r == match active_query(self@) {
                Some(q) => query_holds(q, text@),
                None => true,
            },
    {
        match self.active_filter_query() {
            Some(q) => q.matches(text),
            None => true,
        }
    }

    /// The first `line_format` template of the query in force.
    pub fn active_line_format(&self) -> (r: Option<&LineFormatTemplate>)
        ensures
            match active_query(self@) {
                Some(q) => match first_template(q, 0) {
                    Some(parts) => r matches Some(t) && t@ == parts,
                    None => r is None,
                },
                None => r is None,
            },
    {
        match self.active_filter_query() {
            None => None,
            Some(q) => {
                let n = q.segments.len();
                let mut i: usize = 0;
                while i < n
                    invariant
                        n == q.segments@.len(),
                        i <= n,
                        first_template(q@, i as int) == first_template(q@, 0),
                        active_query(self@) == Some(q@),
                    decreases n - i,
                {
                    assert(q@[i as int] == q.segments@[i as int]@);
                    match &q.segments[i] {
                        FilterSegment::LineFormat(t) => {
                            assert(q.segments@[i as int]@ == SegmentV::LineFormat(t@));
                            assert(first_template(q@, i as int) == Some(t@));
                            assert(active_query(self@) == Some(q@));
                            return Some(t);
                        },
                        _ => {},
                    }
                    i = i + 1;
                }
                None
            },
        }
    }

    /// Re-reads the typed text as the live query; whether what is shown changes.
    pub fn update_live_filter(&mut self) -> (invalidated: bool)
        requires
            state_wf(old(self)@),
        ensures
            final(self)@ == live_updated(old(self)@),
            invalidated == live_invalidates(old(self)@),
            state_wf(final(self)@),
            final(self).filter_input == old(self).filter_input,
            final(self).filter_draft == old(self).filter_draft,
            final(self).history_search_original_input == old(self).history_search_original_input,
    {
        let mut invalidated = false;
        let parsed = match &self.filter_input {
            Some(input) => Some(parse_filter_query(input.value())),
            None => None,
        };
        match parsed {
            None => {},
            Some(Ok(query)) => {
                if query.segments.len() > 0 {
                    self.live_filter_query = Some(query);
                } else {
                    self.live_filter_query = None;
                }
                self.live_filter_error = None;
                invalidated = true;
            },
            Some(Err(msg)) => {
                self.live_filter_error = Some(msg);
            },
        }
        invalidated
    }

    /// The reverse search is over.
    pub fn clear_history_search(&mut self)
        ensures
            final(self)@ == search_cleared(old(self)@),
            final(self).filter_input == old(self).filter_input,
    {
        self.history_search_pattern = None;
        self.history_search_original_input = None;
        self.history_search_failed = false;
        self.history_search_start = None;
    }

    fn reset_filter_input_state(&mut self)
        ensures
            final(self)@ == input_state_reset(old(self)@),
    {
        self.filter_draft = None;
        self.filter_history_index = None;
        self.clear_history_search();
    }

    /// Opens the prompt on the applied query.
    pub fn start_filter_input(&mut self)
        requires
            state_wf(old(self)@),
        ensures
            final(self)@ == input_started(old(self)@),
            state_wf(final(self)@),
            final(self).filter_input matches Some(t) && t.cursor_spec() == t@.len(),
    {
        let initial = match &self.filter_raw_input {
            Some(raw) => raw.clone(),
            None => match &self.filter_query {
                Some(q) => q.display_string(),
                None => String::new(),
            },
        };
        self.filter_input = Some(TextInput::new(initial));
        self.filter_history_index = None;
        self.filter_draft = None;
        self.clear_history_search();
    }

    /// Submits the prompt; whether the query was taken.
    pub fn apply_filter_submit(&mut self) -> (taken: bool)
        requires
            state_wf(old(self)@),
        ensures
            (final(self)@, taken) == submitted(old(self)@),
            state_wf(final(self)@),
            final(self).filter_input is Some ==> final(self).filter_input == old(self).filter_input,
    {
        let input = match self.filter_input.take() {
            None => {
                self.reset_filter_input_state();
                return true;
            },
            Some(i) => i,
        };
        let value = input.value().to_owned();
        match parse_filter_query(value.as_str()) {
            Ok(query) => {
                if query.segments.len() > 0 {
                    self.filter_query = Some(query);
                    self.filter_error = None;
                    self.live_filter_query = None;
                    self.live_filter_error = None;
                    self.filter_raw_input = Some(value.clone());
                    self.push_history(value);
                } else {
                    self.filter_query = None;
                    self.filter_error = None;
                    self.live_filter_query = None;
                    self.live_filter_error = None;
                    self.filter_raw_input = None;
                }
                self.reset_filter_input_state();
                true
            },
            Err(msg) => {
                self.filter_error = Some(msg.duplicate());
                self.live_filter_error = Some(msg);
                self.filter_input = Some(input);
                false
            },
        }
    }

    fn push_history(&mut self, value: String)
        ensures
            final(self)@ == (FilterStateV {
                history: history_pushed(old(self)@.history, value@),
                ..old(self)@
            }),
    {
        let ghost h = old(self)@.history;
        let n = self.filter_history.len();
        let same = n > 0 && self.filter_history[n - 1] == value;
        if !same {
            self.filter_history.push(value);
            if self.filter_history.len() > HISTORY_LIMIT {
                self.filter_history.remove(0);
            }
        }
        proof {
            let hv = strings_view(self.filter_history@);
            if n > 0 {
                assert(h.last() == old(self).filter_history@[n - 1]@);
            }
            if same {
                assert(hv =~= h);
            } else {
                assert(hv =~= history_pushed(h, value@));
            }
        }
    }

    /// Closes the prompt without applying it.
    pub fn cancel_filter_input(&mut self)
        ensures
            final(self)@ == cancelled(old(self)@),
    {
        self.filter_input = None;
        self.filter_error = None;
        self.live_filter_query = None;
        self.live_filter_error = None;
        self.reset_filter_input_state();
    }

    /// Shows the previous history entry.
    pub fn handle_history_up(&mut self)
        requires
            state_wf(old(self)@),
        ensures
            final(self)@ == history_up(old(self)@),
            state_wf(final(self)@),
    {
        let n = self.filter_history.len();
        if n == 0 {
            return;
        }
        if self.filter_history_index.is_none() {
            self.filter_draft = match &self.filter_input {
                Some(i) => Some(i.duplicate()),
                None => None,
            };
        }
        let current = match self.filter_history_index {
            Some(i) => i,
            None => n,
        };
        if current > 0 {
            self.filter_history_index = Some(current - 1);
            let entry = self.filter_history[current - 1].clone();
            self.filter_input = Some(TextInput::new(entry));
            self.update_live_filter();
        }
    }

    /// Shows the next history entry, or the draft past the newest.
    pub fn handle_history_down(&mut self)
        requires
            state_wf(old(self)@),
        ensures
            final(self)@ == history_down(old(self)@),
            state_wf(final(self)@),
    {
        let n = self.filter_history.len();
        if n == 0 {
            return;
        }
        let current = match self.filter_history_index {
            Some(i) => i,
            None => n,
        };
        if current < n - 1 {
            self.filter_history_index = Some(current + 1);
            let entry = self.filter_history[current + 1].clone();
            self.filter_input = Some(TextInput::new(entry));
            self.update_live_filter();
        } else {
            self.filter_history_index = None;
            self.filter_input = match &self.filter_draft {
                Some(d) => Some(d.duplicate()),
                None => Some(TextInput::new(String::new())),
            };
            self.update_live_filter();
        }
    }

    /// The newest entry in `[lo, hi)` containing `pattern`.
    fn find_newest(&self, pattern: &str, lo: usize, hi: usize) -> (r: Option<usize>)
        requires
            lo <= hi <= self.filter_history@.len(),
        ensures
            index_view(r) == newest_match(self@.history, pattern@, lo as int, hi as int),
            r matches Some(i) ==> lo <= i < hi,
    {
        proof {
            lemma_newest_match(self@.history, pattern@, lo as int, hi as int);
        }
        let mut i = hi;
        while i > lo
            invariant
                lo <= i <= hi <= self.filter_history@.len(),
                newest_match(self@.history, pattern@, lo as int, i as int) == newest_match(
                    self@.history,
                    pattern@,
                    lo as int,
                    hi as int,
                ),
            decreases i - lo,
        {
            assert(self@.history[i - 1] == self.filter_history@[i - 1]@);
            if str_contains(self.filter_history[i - 1].as_str(), pattern) {
                return Some(i - 1);
            }
            i = i - 1;
        }
        None
    }

    fn show_found(&mut self, i: usize)
        requires
            state_wf(old(self)@),
            i < old(self)@.history.len(),
        ensures
            final(self)@ == search_found(old(self)@, i as int),
            state_wf(final(self)@),
            final(self).filter_input matches Some(t) && t.cursor_spec() == t@.len(),
            !final(self).history_search_failed,
            final(self).history_search_original_input == old(self).history_search_original_input,
    {
        let entry = self.filter_history[i].clone();
        assert(entry@ == old(self)@.history[i as int]);
        self.filter_input = Some(TextInput::new(entry));
        self.history_search_start = Some(i);
        self.history_search_failed = false;
        self.update_live_filter();
    }

    /// One step of reverse search.
    pub fn handle_history_search(&mut self)
        requires
            state_wf(old(self)@),
        ensures
            final(self)@ == history_searched(old(self)@),
            state_wf(final(self)@),
            old(self).filter_history@.len() == 0 || final(self).history_search_failed
                ==> final(self).filter_input == old(self).filter_input,
            old(self).filter_history@.len() > 0 && !final(self).history_search_failed
                ==> (final(self).filter_input matches Some(t) && t.cursor_spec() == t@.len()),
            old(self).filter_history@.len() > 0 && old(self).history_search_pattern is None
                ==> (final(self).history_search_original_input matches Some(t) ==> (old(
                self,
            ).filter_input matches Some(t0) && t.cursor_spec() == t0.cursor_spec())),
            old(self).filter_history@.len() == 0 || old(self).history_search_pattern is Some
                ==> final(self).history_search_original_input
                == old(self).history_search_original_input,
    {
        let n = self.filter_history.len();
        if n == 0 {
            return;
        }
        if self.history_search_pattern.is_none() {
            self.history_search_pattern = match &self.filter_input {
                Some(i) => Some(i.value().to_owned()),
                None => None,
            };
            self.history_search_original_input = match &self.filter_input {
                Some(i) => Some(i.duplicate()),
                None => None,
            };
            self.history_search_start = None;
        }
        let pattern = match &self.history_search_pattern {
            Some(p) => p.clone(),
            None => String::new(),
        };
        let start = match self.history_search_start {
            Some(i) => i,
            None => n,
        };
        match self.find_newest(pattern.as_str(), 0, start) {
            Some(i) => {
                self.show_found(i);
                return;
            },
            None => {},
        }
        if start < n {
            match self.find_newest(pattern.as_str(), start, n) {
                Some(i) => {
                    self.show_found(i);
                    return;
                },
                None => {},
            }
        }
        self.history_search_failed = true;
    }

    /// Searches again from the newest entry with the current pattern.
    pub fn history_search_update(&mut self)
        requires
            state_wf(old(self)@),
        ensures
            final(self)@ == search_updated(old(self)@),
            state_wf(final(self)@),
    {
        let n = self.filter_history.len();
        let pattern = match &self.history_search_pattern {
            Some(p) => p.clone(),
            None => String::new(),
        };
        match self.find_newest(pattern.as_str(), 0, n) {
            Some(i) => {
                self.show_found(i);
            },
            None => {
                self.history_search_failed = true;
                self.filter_input = match &self.history_search_original_input {
                    Some(o) => Some(o.duplicate()),
                    None => None,
                };
                self.update_live_filter();
            },
        }
    }
}

/// The pattern with its last character removed (an empty pattern stays empty).
pub open spec fn popped(p: Seq<char>) -> Seq<char> {
    if p.len() > 0 {
        p.drop_last()
    } else {
        p
    }
}

/// Whether a key press in the prompt goes to the line editor: not during
/// reverse search, and not one of the keys the prompt handles itself.
pub open spec fn is_edit_key(s: FilterStateV, key: KeyEvent) -> bool {
    &&& s.search_pattern is None
    &&& key.code != KeyCode::Enter
    &&& key.code != KeyCode::Esc
    &&& key.code != KeyCode::Up
    &&& key.code != KeyCode::Down
    &&& !(has_control(key.modifiers) && (key.code == KeyCode::Char('c') || key.code == KeyCode::Char(
        'r',
    ) || key.code == KeyCode::Char('g') || key.code == KeyCode::Char('x')))
}

/// What a key press in the prompt does, for the keys the prompt handles
/// itself: the new state, and whether the shown lines must be recomputed,
/// the help screen toggled, or the viewer quit.
pub open spec fn filter_key_step(s: FilterStateV, key: KeyEvent) -> (FilterStateV, (bool, bool, bool)) {
    let ctrl = has_control(key.modifiers);
    let none = (false, false, false);
    match s.search_pattern {
        Some(p) => if key.code == KeyCode::Enter {
            (submitted(s).0, (true, false, false))
        } else if key.code == KeyCode::Esc {
            (search_cleared(s), none)
        } else if ctrl && key.code == KeyCode::Char('r') {
            (history_searched(s), none)
        } else if ctrl && key.code == KeyCode::Char('g') {
            let s1 = FilterStateV {
                input: s.search_original,
                search_original: None,
                search_pattern: None,
                search_start: None,
                search_failed: false,
                ..s
            };
            (live_updated(s1), (live_invalidates(s1), false, false))
        } else if ctrl && key.code == KeyCode::Char('x') {
            (s, (false, false, true))
        } else if key.code == KeyCode::Backspace {
            (search_updated(FilterStateV { search_pattern: Some(popped(p)), ..s }), none)
        } else {
            match key.code {
                KeyCode::Char(c) => (
                    search_updated(FilterStateV { search_pattern: Some(p.push(c)), ..s }),
                    none,
                ),
                _ => (s, none),
            }
        },
        None => if key.code == KeyCode::Enter {
            (submitted(s).0, (true, false, false))
        } else if key.code == KeyCode::Esc || (ctrl && key.code == KeyCode::Char('c')) {
            (cancelled(s), (true, false, false))
        } else if ctrl && key.code == KeyCode::Char('r') {
            (history_searched(s), none)
        } else if key.code == KeyCode::Up {
            (history_up(search_cleared(s)), none)
        } else if key.code == KeyCode::Down {
            (history_down(search_cleared(s)), none)
        } else if ctrl && key.code == KeyCode::Char('g') {
            (s, (false, true, false))
        } else if ctrl && key.code == KeyCode::Char('x') {
            (s, (false, false, true))
        } else {
            (s, none)
        },
    }
}

/// The prompt after the line editor changed (or not) its text to `v`.
pub open spec fn edited(s: FilterStateV, v: Seq<char>, changed: bool) -> (FilterStateV, (bool, bool, bool)) {
    let s1 = FilterStateV { input: Some(v), ..s };
    if changed {
        let s2 = FilterStateV { error: None, ..s1 };
        (live_updated(s2), (live_invalidates(s2), false, false))
    } else {
        (s1, (false, false, false))
    }
}

/// What a key press does to the prompt state `a`, leaving `b` and answering
/// `r`. A key that goes to the line editor while the prompt is open changes
/// the prompt's editor as `key_edit` says (text and cursor), and the rest of
/// the state as `edited` says for the new text; every other key acts as
/// `filter_key_step` says.
pub open spec fn prompt_key_handled(a: FilterState, key: KeyEvent, b: FilterState, r: (bool, bool, bool)) -> bool {
    if is_edit_key(a@, key) && a.filter_input is Some {
        &&& b.filter_input is Some
        &&& exists|changed: bool|
            key_edit(a.filter_input.unwrap(), b.filter_input.unwrap(), key, changed) && (b@, r)
                == #[trigger] edited(a@, b.filter_input.unwrap()@, changed)
    } else {
        (b@, r) == filter_key_step(a@, key)
    }
}

impl FilterState {
    /// Handles a key press while the prompt is open; gives whether the shown
    /// lines must be recomputed, whether the help screen is to be shown, and
    /// whether the viewer is to quit.
    pub fn handle_filter_key(&mut self, key: KeyEvent) -> (r: (bool, bool, bool))
        requires
            state_wf(old(self)@),
        ensures
            state_wf(final(self)@),
            prompt_key_handled(*old(self), key, *final(self), r),
    {
        let ctrl = key.ctrl();
        if self.history_search_pattern.is_some() {
            let p = match &self.history_search_pattern {
                Some(p) => p.clone(),
                None => String::new(),
            };
            match key.code {
                KeyCode::Enter => {
                    self.apply_filter_submit();
                    return (true, false, false);
                },
                KeyCode::Esc => {
                    self.clear_history_search();
                    return (false, false, false);
                },
                KeyCode::Char('r') if ctrl => {
                    self.handle_history_search();
                    return (false, false, false);
                },
                KeyCode::Char('g') if ctrl => {
                    self.filter_input = self.history_search_original_input.take();
                    self.history_search_pattern = None;
                    self.history_search_start = None;
                    self.history_search_failed = false;
                    let invalidated = self.update_live_filter();
                    return (invalidated, false, false);
                },
                KeyCode::Char('x') if ctrl => {
                    return (false, false, true);
                },
                KeyCode::Backspace => {
                    let mut v = crate::text::chars_of(p.as_str());
                    if v.len() > 0 {
                        v.pop();
                        assert(v@ =~= p@.drop_last());
                    }
                    self.history_search_pattern = Some(crate::text::string_of(v.as_slice()));
                    self.history_search_update();
                    return (false, false, false);
                },
                KeyCode::Char(c) => {
                    let mut v = crate::text::chars_of(p.as_str());
                    v.push(c);
                    self.history_search_pattern = Some(crate::text::string_of(v.as_slice()));
                    self.history_search_update();
                    return (false, false, false);
                },
                _ => {
                    return (false, false, false);
                },
            }
        }
        match key.code {
            KeyCode::Enter => {
                self.apply_filter_submit();
                (true, false, false)
            },
            KeyCode::Esc => {
                self.cancel_filter_input();
                (true, false, false)
            },
            KeyCode::Char('c') if ctrl => {
                self.cancel_filter_input();
                (true, false, false)
            },
            KeyCode::Char('r') if ctrl => {
                self.handle_history_search();
                (false, false, false)
            },
            KeyCode::Up => {
                self.clear_history_search();
                self.handle_history_up();
                (false, false, false)
            },
            KeyCode::Down => {
                self.clear_history_search();
                self.handle_history_down();
                (false, false, false)
            },
            KeyCode::Char('g') if ctrl => (false, true, false),
            KeyCode::Char('x') if ctrl => (false, false, true),
            _ => {
                let mut invalidated = false;
                let ghost s0 = self@;
                match self.filter_input.take() {
                    Some(mut input) => {
                        let ghost t0 = input;
                        let changed = input.handle_key(key);
                        self.filter_input = Some(input);
                        if changed {
                            self.filter_error = None;
                            invalidated = self.update_live_filter();
                        }
                        proof {
                            assert((self@, (invalidated, false, false)) == edited(s0, input@, changed));
                            assert(key_edit(t0, self.filter_input.unwrap(), key, changed));
                        }
                    },
                    None => {},
                }
                (invalidated, false, false)
            },
        }
    }
}

/// The template of the first `line_format` segment at or after `i`.
pub open spec fn first_template(q: Seq<SegmentV>, i: int) -> Option<Seq<PartV>>
    decreases q.len() - i,
{
    if i < 0 || i >= q.len() {
        None
    } else {
        match q[i] {
            SegmentV::LineFormat(t) => Some(t),
            _ => first_template(q, i + 1),
        }
    }
}

} // verus!
