//! The classic two-view viewer: a list of lines with a selection, and a
//! detail view of the selected line. Lines arrive one by one; key presses
//! move the selection, open the detail view, and type, apply and recall
//! filter queries.
use vstd::prelude::*;
use vstd::string::StringSliceAdditionalSpecFns;
use vstd::utf8::*;
use crate::clock::{local_timestamp, timestamp_shape};
use crate::filter::{
    ErrorV, FilterError, FilterQuery, SegmentV, parse_filter_query, query_holds, query_of,
};
use crate::filter_state::{
    error_view, history_pushed, index_view, lemma_newest_match, newest_match, query_view,
    string_view,
};
use crate::highlight::HighlightColors;
use crate::keys::{InputEvent, KeyCode, KeyEvent, KeyKind, has_control};
use crate::text::{str_contains, strings_view};

verus! {

/// Which view is shown.
#[derive(Debug, Clone, Copy, PartialEq, Eq, Structural)]
pub enum ViewMode {
    List,
    Detail,
}

/// A line and the time it arrived.
#[derive(Debug, Clone)]
pub struct LogEntry {
    pub text: String,
    pub timestamp: String,
}

/// How many queries the history keeps.
pub const HISTORY_LIMIT: usize = 100;

/// The viewer's state.
pub struct App {
    pub lines: Vec<LogEntry>,
    pub view_mode: ViewMode,
    pub selected: usize,
    pub scroll_offset: usize,
    pub auto_scroll: bool,
    pub detail_scroll: u16,
    pub filter_input: Option<String>,
    pub max_lines: usize,
    pub should_quit: bool,
    pub colors: HighlightColors,
    pub filter_query: Option<FilterQuery>,
    pub filter_error: Option<FilterError>,
    pub live_filter_query: Option<FilterQuery>,
    pub live_filter_error: Option<FilterError>,
    pub filter_history: Vec<String>,
    pub filter_history_index: Option<usize>,
    pub filter_draft: Option<String>,
    pub history_search_active: bool,
    pub history_search_start: Option<usize>,
    pub filtered_indices_cache: Option<Vec<usize>>,
    /// A first Ctrl-C was pressed outside the prompt; a second one quits.
    pub interrupt_pending: bool,
}

/// The texts of the lines.
pub open spec fn texts(lines: Seq<LogEntry>) -> Seq<Seq<char>> {
    lines.map_values(|e: LogEntry| e.text@)
}

/// The value of the viewer's state (without the cache).
pub struct ClassicV {
    pub lines: Seq<Seq<char>>,
    pub view_mode: ViewMode,
    pub selected: usize,
    pub scroll_offset: usize,
    pub auto_scroll: bool,
    pub detail_scroll: u16,
    pub input: Option<Seq<char>>,
    pub max_lines: usize,
    pub should_quit: bool,
    pub query: Option<Seq<SegmentV>>,
    pub error: Option<ErrorV>,
    pub live_query: Option<Seq<SegmentV>>,
    pub live_error: Option<ErrorV>,
    pub history: Seq<Seq<char>>,
    pub history_index: Option<int>,
    pub draft: Option<Seq<char>>,
    pub search_active: bool,
    pub search_start: Option<int>,
    pub interrupt_pending: bool,
}

impl View for App {
    type V = ClassicV;

    open spec fn view(&self) -> ClassicV {
        ClassicV {
            lines: texts(self.lines@),
            view_mode: self.view_mode,
            selected: self.selected,
            scroll_offset: self.scroll_offset,
            auto_scroll: self.auto_scroll,
            detail_scroll: self.detail_scroll,
            input: string_view(self.filter_input),
            max_lines: self.max_lines,
            should_quit: self.should_quit,
            query: query_view(self.filter_query),
            error: error_view(self.filter_error),
            live_query: query_view(self.live_filter_query),
            live_error: error_view(self.live_filter_error),
            history: strings_view(self.filter_history@),
            history_index: index_view(self.filter_history_index),
            draft: string_view(self.filter_draft),
            search_active: self.history_search_active,
            search_start: index_view(self.history_search_start),
            interrupt_pending: self.interrupt_pending,
        }
    }
}

/// The query in force: the live one while typing, the applied one otherwise.
pub open spec fn active_query_v(v: ClassicV) -> Option<Seq<SegmentV>> {
    if v.input is Some {
        v.live_query
    } else {
        v.query
    }
}

/// The indices below `n` of the lines that pass `q`, in order.
pub open spec fn passing(t: Seq<Seq<char>>, q: Seq<SegmentV>, n: int) -> Seq<usize>
    decreases n,
{
    if n <= 0 {
        seq![]
    } else if query_holds(q, t[n - 1]) {
        passing(t, q, n - 1).push((n - 1) as usize)
    } else {
        passing(t, q, n - 1)
    }
}

/// The indices `0..n`.
pub open spec fn all_indices(n: int) -> Seq<usize> {
    Seq::new(n as nat, |i: int| i as usize)
}

/// The indices of the lines shown: those that pass the query in force, or
/// all lines when there is no query (or an empty one).
pub open spec fn shown_v(v: ClassicV) -> Seq<usize> {
    let n = v.lines.len() as int;
    match active_query_v(v) {
        Some(q) => if q.len() > 0 {
            passing(v.lines, q, n)
        } else {
            all_indices(n)
        },
        None => all_indices(n),
    }
}

/// The indices of the lines shown.
pub open spec fn shown(app: &App) -> Seq<usize> {
    shown_v(app@)
}

/// The shape every reachable state has: the cached indices are those shown,
/// and history positions point into the history.
pub open spec fn app_wf(app: &App) -> bool {
    &&& (app.filtered_indices_cache matches Some(v) ==> v@ == shown(app))
    &&& (app.filter_history_index matches Some(i) ==> i < app.filter_history@.len())
    &&& (app.history_search_start matches Some(i) ==> i <= app.filter_history@.len())
    &&& app.lines@.len() <= usize::MAX - 1
    &&& (app@.query matches Some(q) ==> crate::filter::query_wf(q))
}

pub proof fn lemma_passing_bounds(t: Seq<Seq<char>>, q: Seq<SegmentV>, n: int)
    requires
        0 <= n <= usize::MAX,
    ensures
        passing(t, q, n).len() <= n,
        forall|i: int| 0 <= i < passing(t, q, n).len() ==> #[trigger] passing(t, q, n)[i] < n,
        forall|i: int, j: int| 0 <= i < j < passing(t, q, n).len() ==> passing(t, q, n)[i] < passing(t, q, n)[j],
    decreases n,
{
    if n > 0 {
        lemma_passing_bounds(t, q, n - 1);
        let p = passing(t, q, n - 1);
        if query_holds(q, t[n - 1]) {
            let r = p.push((n - 1) as usize);
            assert forall|i: int| 0 <= i < r.len() implies #[trigger] r[i] < n by {
                if i < p.len() {
                    assert(r[i] == p[i]);
                }
            }
            assert(r[p.len() as int] == n - 1);
            assert forall|i: int, j: int| 0 <= i < j < r.len() implies r[i] < r[j] by {
                assert(r[i] == p[i]);
                if j < p.len() {
                    assert(r[j] == p[j]);
                }
            }
        }
    }
}

/// The shown indices lie below the number of lines and increase.
pub proof fn lemma_shown_bounds(app: &App)
    requires
        app.lines@.len() < usize::MAX,
    ensures
        shown(app).len() <= app.lines@.len(),
        forall|i: int| 0 <= i < shown(app).len() ==> #[trigger] shown(app)[i] < app.lines@.len(),
        forall|i: int, j: int| 0 <= i < j < shown(app).len() ==> shown(app)[i] < shown(app)[j],
{
    let n = app.lines@.len() as int;
    assert(app@.lines.len() == n);
    let a = all_indices(n);
    assert forall|i: int, j: int| 0 <= i < j < a.len() implies a[i] < a[j] by {
        assert(a[i] == i as usize);
        assert(a[j] == j as usize);
    }
    match active_query_v(app@) {
        Some(q) => if q.len() > 0 {
            lemma_passing_bounds(texts(app.lines@), q, n);
        },
        None => {},
    }
}

/// The position of `x` in `v`, if it occurs.
pub open spec fn position_of(v: Seq<usize>, x: usize) -> Option<int>
    decreases v.len(),
{
    if v.len() == 0 {
        None
    } else if v.last() == x {
        match position_of(v.drop_last(), x) {
            Some(p) => Some(p),
            None => Some(v.len() - 1),
        }
    } else {
        position_of(v.drop_last(), x)
    }
}

pub proof fn lemma_position_of(v: Seq<usize>, x: usize)
    ensures
        position_of(v, x) matches Some(p) ==> 0 <= p < v.len() && v[p] == x && forall|k: int| 0 <= k < p ==> v[k] != x,
        position_of(v, x) is None ==> forall|k: int| 0 <= k < v.len() ==> v[k] != x,
    decreases v.len(),
{
    if v.len() > 0 {
        let d = v.drop_last();
        lemma_position_of(d, x);
        assert forall|k: int| 0 <= k < d.len() implies d[k] == v[k] by {}
    }
}

/// `v` clamped to `[lo, hi]`.
pub open spec fn clamp(v: int, lo: int, hi: int) -> int {
    if v < lo {
        lo
    } else if v > hi {
        hi
    } else {
        v
    }
}

/// The scroll offset that keeps `selected` on screen: moved up to it, or
/// down just enough to show it.
pub open spec fn visible_offset(offset: int, selected: int, height: int) -> int {
    let o1 = if offset > selected {
        selected
    } else {
        offset
    };
    if selected >= o1 + height {
        selected - height + 1
    } else {
        o1
    }
}

/// Everything but the navigation state stays.
pub open spec fn same_content(a: &App, b: &App) -> bool {
    &&& a.lines == b.lines
    &&& a.view_mode == b.view_mode
    &&& a.detail_scroll == b.detail_scroll
    &&& a.filter_input == b.filter_input
    &&& a.max_lines == b.max_lines
    &&& a.should_quit == b.should_quit
    &&& a.filter_query == b.filter_query
    &&& a.filter_error == b.filter_error
    &&& a.live_filter_query == b.live_filter_query
    &&& a.live_filter_error == b.live_filter_error
    &&& a.filter_history == b.filter_history
    &&& a.filter_history_index == b.filter_history_index
    &&& a.filter_draft == b.filter_draft
    &&& a.history_search_active == b.history_search_active
    &&& a.history_search_start == b.history_search_start
    &&& a.colors == b.colors
    &&& a.interrupt_pending == b.interrupt_pending
}

/// The selection after moving `delta` places among the shown lines (from the
/// first shown line when the selection is not among them), the matching
/// auto-scroll flag, and the scroll offset that keeps it on screen.
pub open spec fn moved(app: &App, delta: int, height: int) -> (usize, bool, usize) {
    let f = shown(app);
    let cur = match position_of(f, app.selected) {
        Some(p) => p,
        None => 0,
    };
    let np = clamp(cur + delta, 0, f.len() - 1);
    let sel = f[np];
    (sel, sel == f.last(), visible_offset(app.scroll_offset as int, sel as int, height) as usize)
}


// ---------------------------------------------------------------------------
// Transitions
// ---------------------------------------------------------------------------

/// Re-reads the typed text as the live query: a non-empty query becomes the
/// live query, an empty one clears it, an error is recorded and the previous
/// live query stays.
pub open spec fn live_c(v: ClassicV) -> ClassicV {
    match v.input {
        None => v,
        Some(s) => match query_of(s) {
            Ok(q) => if q.len() > 0 {
                ClassicV { live_query: Some(q), live_error: None, ..v }
            } else {
                ClassicV { live_query: None, live_error: None, ..v }
            },
            Err(e) => ClassicV { live_error: Some(e), ..v },
        },
    }
}

/// The selection brought among the shown lines: past the last one it goes to
/// the last, off the shown set to the first.
pub open spec fn clamp_selection(v: ClassicV) -> ClassicV {
    let f = shown_v(v);
    if f.len() == 0 {
        v
    } else if v.selected > f.last() {
        ClassicV { selected: f.last(), ..v }
    } else if !f.contains(v.selected) {
        ClassicV { selected: f[0], ..v }
    } else {
        v
    }
}

/// The history browsing and search state cleared.
pub open spec fn prompt_reset(v: ClassicV) -> ClassicV {
    ClassicV { draft: None, history_index: None, search_active: false, search_start: None, ..v }
}

/// Enter in the prompt: a non-empty query is applied and added to the
/// history, an empty one clears the filter, an invalid one is reported with
/// the prompt kept open; then the selection is brought among the shown lines.
pub open spec fn prompt_entered(v: ClassicV) -> ClassicV {
    let v1 = match v.input {
        None => v,
        Some(s) => match query_of(s) {
            Ok(q) => if q.len() > 0 {
                ClassicV {
                    input: None,
                    query: Some(q),
                    error: None,
                    live_query: None,
                    live_error: None,
                    history: history_pushed(v.history, s),
                    ..v
                }
            } else {
                ClassicV {
                    input: None,
                    query: None,
                    error: None,
                    live_query: None,
                    live_error: None,
                    ..v
                }
            },
            Err(e) => ClassicV { error: Some(e), live_error: Some(e), ..v },
        },
    };
    clamp_selection(prompt_reset(v1))
}

/// Leaving the prompt without applying it.
pub open spec fn prompt_cancelled(v: ClassicV) -> ClassicV {
    prompt_reset(ClassicV { input: None, error: None, live_query: None, live_error: None, ..v })
}

/// Stepping back in the history, keeping the typed text as a draft first.
pub open spec fn history_up_c(v: ClassicV) -> ClassicV {
    if v.history.len() == 0 {
        v
    } else {
        let v1 = if v.history_index is None {
            ClassicV { draft: v.input, ..v }
        } else {
            v
        };
        let cur = match v.history_index {
            Some(i) => i,
            None => v.history.len() as int,
        };
        if cur > 0 {
            live_c(ClassicV { history_index: Some(cur - 1), input: Some(v.history[cur - 1]), ..v1 })
        } else {
            v1
        }
    }
}

/// Stepping forward in the history, back to the draft past the newest entry.
pub open spec fn history_down_c(v: ClassicV) -> ClassicV {
    if v.history.len() == 0 {
        v
    } else {
        let cur = match v.history_index {
            Some(i) => i,
            None => v.history.len() as int,
        };
        if cur < v.history.len() - 1 {
            live_c(ClassicV { history_index: Some(cur + 1), input: Some(v.history[cur + 1]), ..v })
        } else {
            live_c(
                ClassicV {
                    history_index: None,
                    input: Some(
                        match v.draft {
                            Some(d) => d,
                            None => Seq::empty(),
                        },
                    ),
                    ..v
                },
            )
        }
    }
}

/// Showing history entry `i` as a search result.
pub open spec fn found_c(v: ClassicV, i: int) -> ClassicV {
    live_c(ClassicV { input: Some(v.history[i]), search_start: Some(i), search_active: true, ..v })
}

/// One step of reverse search for the draft (or else the typed text): the
/// next older entry containing it, wrapping around to the newest.
pub open spec fn history_search_c(v: ClassicV) -> ClassicV {
    if v.history.len() == 0 {
        v
    } else {
        let term = match v.draft {
            Some(d) => d,
            None => match v.input {
                Some(s) => s,
                None => Seq::empty(),
            },
        };
        let start = match v.search_start {
            Some(i) => i,
            None => v.history.len() as int,
        };
        match newest_match(v.history, term, 0, start) {
            Some(i) => found_c(v, i),
            None => if start < v.history.len() {
                match newest_match(v.history, term, start, v.history.len() as int) {
                    Some(i) => found_c(v, i),
                    None => v,
                }
            } else {
                v
            },
        }
    }
}

/// Search over: typing or browsing ends it.
pub open spec fn search_off(v: ClassicV) -> ClassicV {
    ClassicV { search_active: false, search_start: None, ..v }
}

/// A key press in the prompt.
pub open spec fn prompt_key(v: ClassicV, key: KeyEvent) -> ClassicV {
    let ctrl = has_control(key.modifiers);
    match key.code {
        KeyCode::Enter => prompt_entered(v),
        KeyCode::Esc => prompt_cancelled(v),
        KeyCode::Backspace => match v.input {
            Some(s) => if s.len() == 0 {
                v
            } else {
                live_c(search_off(ClassicV { input: Some(s.drop_last()), error: None, ..v }))
            },
            None => v,
        },
        KeyCode::Up => history_up_c(search_off(v)),
        KeyCode::Down => history_down_c(search_off(v)),
        KeyCode::Char(c) => if ctrl && c == 'c' {
            prompt_cancelled(v)
        } else if ctrl && c == 'r' {
            history_search_c(v)
        } else {
            match v.input {
                Some(s) => live_c(search_off(ClassicV { input: Some(s.push(c)), error: None, ..v })),
                None => v,
            }
        },
        _ => v,
    }
}

/// The selection after moving `delta` places among the shown lines (from the
/// first shown line when the selection is not among them), whether it is
/// the last shown line, and the scroll offset that keeps it on screen.
pub open spec fn moved_v(v: ClassicV, delta: int, height: int) -> ClassicV {
    let f = shown_v(v);
    if f.len() == 0 {
        v
    } else {
        let cur = match position_of(f, v.selected) {
            Some(p) => p,
            None => 0,
        };
        let np = clamp(cur + delta, 0, f.len() - 1);
        let sel = f[np];
        ClassicV {
            selected: sel,
            auto_scroll: sel == f.last(),
            scroll_offset: visible_offset(v.scroll_offset as int, sel as int, height) as usize,
            ..v
        }
    }
}

/// Half a page, at least one line.
pub open spec fn half_page(h: int) -> int {
    if h / 2 >= 1 {
        h / 2
    } else {
        1
    }
}

/// Opening the prompt from the list: it holds the newest history entry (or
/// nothing), with the history position on that entry.
pub open spec fn prompt_opened(v: ClassicV) -> ClassicV {
    let n = v.history.len() as int;
    live_c(
        ClassicV {
            input: Some(
                if n > 0 {
                    v.history[n - 1]
                } else {
                    Seq::empty()
                },
            ),
            history_index: if n > 0 {
                Some(n - 1)
            } else {
                None
            },
            draft: None,
            search_active: false,
            search_start: None,
            ..v
        },
    )
}

/// A key press in the list view.
pub open spec fn list_key(v: ClassicV, key: KeyEvent, h: int) -> ClassicV {
    let f = shown_v(v);
    let exact_ctrl = key.modifiers == crate::keys::CONTROL;
    match key.code {
        KeyCode::Char(c) => if exact_ctrl && c == 'x' {
            ClassicV { should_quit: true, ..v }
        } else if c == 'j' {
            moved_v(v, 1, h)
        } else if c == 'k' {
            moved_v(v, -1, h)
        } else if c == 'G' && f.len() > 0 {
            ClassicV {
                selected: f.last(),
                auto_scroll: true,
                scroll_offset: visible_offset(v.scroll_offset as int, f.last() as int, h) as usize,
                ..v
            }
        } else if exact_ctrl && c == 'd' {
            moved_v(v, half_page(h), h)
        } else if exact_ctrl && c == 'u' {
            moved_v(v, -half_page(h), h)
        } else if exact_ctrl && c == 'f' {
            moved_v(v, h, h)
        } else if exact_ctrl && c == 'b' {
            moved_v(v, -h, h)
        } else if exact_ctrl && c == 'e' {
            moved_v(v, 1, h)
        } else if exact_ctrl && c == 'y' {
            moved_v(v, -1, h)
        } else if c == '/' {
            prompt_opened(v)
        } else {
            v
        },
        KeyCode::Down => moved_v(v, 1, h),
        KeyCode::Up => moved_v(v, -1, h),
        KeyCode::Enter => if f.len() > 0 {
            ClassicV { view_mode: ViewMode::Detail, detail_scroll: 0, ..v }
        } else {
            v
        },
        KeyCode::Esc => ClassicV { query: None, ..v },
        _ => v,
    }
}

/// `a + b` capped at the largest `u16`.
pub open spec fn sat_add16(a: u16, b: int) -> u16 {
    if a + b > u16::MAX {
        u16::MAX
    } else {
        (a + b) as u16
    }
}

/// `a - b` floored at zero.
pub open spec fn sat_sub16(a: u16, b: int) -> u16 {
    if a - b < 0 {
        0
    } else {
        (a - b) as u16
    }
}

/// A key press in the detail view.
pub open spec fn detail_key(v: ClassicV, key: KeyEvent, h: int) -> ClassicV {
    let exact_ctrl = key.modifiers == crate::keys::CONTROL;
    let ds = v.detail_scroll;
    match key.code {
        KeyCode::Char(c) => if exact_ctrl && c == 'x' {
            ClassicV { should_quit: true, ..v }
        } else if c == 'q' {
            ClassicV { view_mode: ViewMode::List, ..v }
        } else if c == 'j' {
            ClassicV { detail_scroll: sat_add16(ds, 1), ..v }
        } else if c == 'k' {
            ClassicV { detail_scroll: sat_sub16(ds, 1), ..v }
        } else if exact_ctrl && c == 'd' {
            ClassicV { detail_scroll: sat_add16(ds, half_page(h)), ..v }
        } else if exact_ctrl && c == 'u' {
            ClassicV { detail_scroll: sat_sub16(ds, half_page(h)), ..v }
        } else if exact_ctrl && c == 'f' {
            ClassicV { detail_scroll: sat_add16(ds, h), ..v }
        } else if exact_ctrl && c == 'b' {
            ClassicV { detail_scroll: sat_sub16(ds, h), ..v }
        } else if exact_ctrl && c == 'e' {
            ClassicV { detail_scroll: sat_add16(ds, 1), ..v }
        } else if exact_ctrl && c == 'y' {
            ClassicV { detail_scroll: sat_sub16(ds, 1), ..v }
        } else {
            v
        },
        KeyCode::Backspace => ClassicV { view_mode: ViewMode::List, ..v },
        KeyCode::Esc => ClassicV { view_mode: ViewMode::List, ..v },
        KeyCode::Down => ClassicV { detail_scroll: sat_add16(ds, 1), ..v },
        KeyCode::Up => ClassicV { detail_scroll: sat_sub16(ds, 1), ..v },
        _ => v,
    }
}

/// The rows left for lines in a screen of `height` rows.
pub open spec fn rows_for_lines(v: ClassicV, height: int) -> int {
    let overhead = if v.input is Some {
        4int
    } else {
        3int
    };
    if height - overhead > 0 {
        height - overhead
    } else {
        0
    }
}

/// Whether `key` is Ctrl-C.
pub open spec fn is_interrupt(key: KeyEvent) -> bool {
    key.code == KeyCode::Char('c') && key.modifiers == crate::keys::CONTROL
}

/// A terminal event: key presses go to the prompt while it is open, and
/// otherwise to the list or the detail view; other events change nothing.
/// Outside the prompt, Ctrl-C twice in a row quits: the first one only
/// arms, and any other key press disarms.
pub open spec fn event_step(v: ClassicV, ev: InputEvent, height: int) -> ClassicV {
    match ev {
        InputEvent::Key(key) => if key.kind != KeyKind::Press {
            v
        } else if v.input is Some {
            ClassicV { interrupt_pending: false, ..prompt_key(v, key) }
        } else if is_interrupt(key) {
            if v.interrupt_pending {
                ClassicV { should_quit: true, interrupt_pending: false, ..v }
            } else {
                ClassicV { interrupt_pending: true, ..v }
            }
        } else if v.view_mode == ViewMode::List {
            ClassicV { interrupt_pending: false, ..list_key(v, key, rows_for_lines(v, height)) }
        } else {
            ClassicV { interrupt_pending: false, ..detail_key(v, key, rows_for_lines(v, height)) }
        },
        _ => v,
    }
}

/// Following the newest shown line: it becomes the selection and the list
/// scrolls to its end.
pub open spec fn auto_scrolled(v: ClassicV, h: int) -> ClassicV {
    let f = shown_v(v);
    if !v.auto_scroll || f.len() == 0 {
        v
    } else {
        ClassicV {
            selected: f.last(),
            scroll_offset: (if f.len() - h > 0 {
                f.len() - h
            } else {
                0
            }) as usize,
            ..v
        }
    }
}

impl App {
    /// An empty viewer keeping at most `max_lines` lines.
    pub fn new(max_lines: usize) -> (app: App)
        ensures
            app.lines@.len() == 0,
            app.view_mode == ViewMode::List,
            app.selected == 0 && app.scroll_offset == 0 && app.auto_scroll,
            app.detail_scroll == 0 && app.filter_input is None,
            app.max_lines == max_lines && !app.should_quit,
            app.filter_query is None && app.filter_error is None,
            app.live_filter_query is None && app.live_filter_error is None,
            app.filter_history@.len() == 0 && app.filter_history_index is None,
            app.filter_draft is None && !app.history_search_active,
            app.history_search_start is None && !app.interrupt_pending,
            app_wf(&app),
    {
        App {
            lines: Vec::new(),
            view_mode: ViewMode::List,
            selected: 0,
            scroll_offset: 0,
            auto_scroll: true,
            detail_scroll: 0,
            filter_input: None,
            max_lines,
            should_quit: false,
            colors: HighlightColors::default(),
            filter_query: None,
            filter_error: None,
            live_filter_query: None,
            live_filter_error: None,
            filter_history: Vec::new(),
            filter_history_index: None,
            filter_draft: None,
            history_search_active: false,
            history_search_start: None,
            filtered_indices_cache: None,
            interrupt_pending: false,
        }
    }

    /// Adds a line stamped with the current time; past `max_lines` the
    /// oldest line goes and the selection follows its line.
    pub fn add_line(&mut self, line: String)
        requires
            app_wf(old(self)),
            old(self).lines@.len() < usize::MAX - 1,
        ensures
            app_wf(final(self)),
            texts(final(self).lines@) == (if old(self).lines@.len() + 1 > old(self).max_lines {
                texts(old(self).lines@).push(line@).drop_first()
            } else {
                texts(old(self).lines@).push(line@)
            }),
            final(self).lines@.len() > 0 ==> timestamp_shape(final(self).lines@.last().timestamp@),
            final(self).selected == (if old(self).lines@.len() + 1 > old(self).max_lines
                && old(self).selected > 0 {
                (old(self).selected - 1) as usize
            } else {
                old(self).selected
            }),
            final(self).scroll_offset == old(self).scroll_offset,
            final(self).auto_scroll == old(self).auto_scroll,
            final(self).view_mode == old(self).view_mode,
            final(self).filter_input == old(self).filter_input,
            final(self).filter_query == old(self).filter_query,
            final(self).live_filter_query == old(self).live_filter_query,
            final(self).filter_history == old(self).filter_history,
            final(self).should_quit == old(self).should_quit,
            final(self).max_lines == old(self).max_lines,
    {
        let timestamp = local_timestamp();
        let ghost t0 = texts(self.lines@);
        self.lines.push(LogEntry { text: line, timestamp });
        if self.lines.len() > self.max_lines {
            self.lines.remove(0);
            if self.selected > 0 {
                self.selected = self.selected - 1;
            }
        }
        self.filtered_indices_cache = None;
        proof {
            if old(self).lines@.len() + 1 > old(self).max_lines {
                assert(texts(self.lines@) =~= t0.push(line@).drop_first());
            } else {
                assert(texts(self.lines@) =~= t0.push(line@));
            }
        }
    }

    /// The shown indices, from the cache when it holds them.
    pub fn filtered_indices(&mut self) -> (r: Vec<usize>)
        requires
            app_wf(old(self)),
        ensures
            r@ == shown(old(self)),
            app_wf(final(self)),
            final(self).lines == old(self).lines,
            final(self).selected == old(self).selected,
            final(self).scroll_offset == old(self).scroll_offset,
            final(self).auto_scroll == old(self).auto_scroll,
            same_content(final(self), old(self)),
    {
        match &self.filtered_indices_cache {
            Some(v) => v.clone(),
            None => {
                let v = self.compute_filtered_indices();
                self.filtered_indices_cache = Some(v.clone());
                v
            },
        }
    }

    /// Whether `text` passes the query in force (the live one while typing);
    /// every line passes when there is none.
    pub fn line_matches_filter(&self, text: &str) -> (r: bool)
        ensures
            r == match active_query_v(self@) {
                Some(q) => crate::filter::query_holds(q, text@),
                None => true,
            },
    {
        let q = if self.filter_input.is_some() {
            &self.live_filter_query
        } else {
            &self.filter_query
        };
        match q {
            Some(q) => q.matches(text),
            None => true,
        }
    }

    /// Computes the shown indices.
    pub fn compute_filtered_indices(&self) -> (r: Vec<usize>)
        requires
            app_wf(self),
        ensures
            r@ == shown(self),
    {
        let n = self.lines.len();
        let q = if self.filter_input.is_some() {
            &self.live_filter_query
        } else {
            &self.filter_query
        };
        let mut out: Vec<usize> = Vec::new();
        match q {
            Some(q) if q.segments.len() > 0 => {
                let mut i: usize = 0;
                while i < n
                    invariant
                        n == self.lines@.len(),
                        i <= n,
                        active_query_v(self@) == Some(q@),
                        out@ == passing(texts(self.lines@), q@, i as int),
                    decreases n - i,
                {
                    assert(texts(self.lines@)[i as int] == self.lines@[i as int].text@);
                    if q.matches(self.lines[i].text.as_str()) {
                        out.push(i);
                    }
                    i = i + 1;
                }
            },
            _ => {
                let mut i: usize = 0;
                while i < n
                    invariant
                        n == self.lines@.len(),
                        i <= n,
                        out@ == all_indices(i as int),
                    decreases n - i,
                {
                    out.push(i);
                    i = i + 1;
                    assert(out@ =~= all_indices(i as int));
                }
                assert(out@ =~= all_indices(n as int));
            },
        }
        out
    }

    /// Rows left for lines in a screen of `height` rows: the breadcrumb and
    /// two help rows take three, and the prompt one more while typing.
    pub fn visible_height(&self, height: u16) -> (r: usize)
        ensures
            r == (if height as int - (if self.filter_input is Some { 4int } else { 3int }) > 0 {
                height as int - (if self.filter_input is Some { 4int } else { 3int })
            } else {
                0
            }),
    {
        let overhead: usize = if self.filter_input.is_some() {
            4
        } else {
            3
        };
        (height as usize).saturating_sub(overhead)
    }

    /// Scrolls so that the selected line is on screen.
    pub fn ensure_selection_visible(&mut self, visible_height: usize)
        requires
            visible_height > 0 || old(self).selected < usize::MAX,
        ensures
            final(self).scroll_offset == visible_offset(
                old(self).scroll_offset as int,
                old(self).selected as int,
                visible_height as int,
            ),
            final(self)@ == (ClassicV { scroll_offset: final(self).scroll_offset, ..old(self)@ }),
            final(self).filtered_indices_cache == old(self).filtered_indices_cache,
            final(self).lines == old(self).lines,
            final(self).filter_history == old(self).filter_history,
            final(self).filter_history_index == old(self).filter_history_index,
            final(self).history_search_start == old(self).history_search_start,
    {
        if self.scroll_offset > self.selected {
            self.scroll_offset = self.selected;
        }
        if self.selected - self.scroll_offset >= visible_height {
            if visible_height == 0 {
                self.scroll_offset = self.selected + 1;
            } else {
                self.scroll_offset = self.selected - (visible_height - 1);
            }
        }
    }

    /// Moves the selection `delta` places among the shown lines.
    pub fn move_selection(&mut self, delta: isize, visible_height: usize)
        requires
            app_wf(old(self)),
        ensures
            final(self)@ == moved_v(old(self)@, delta as int, visible_height as int),
            app_wf(final(self)),
    {
        let filtered = self.filtered_indices();
        let n = filtered.len();
        if n == 0 {
            return;
        }
        proof {
            lemma_shown_bounds(old(self));
        }
        let mut cur: usize = 0;
        let mut k: usize = 0;
        let mut found = false;
        while k < n
            invariant_except_break
                !found,
            invariant
                n == filtered@.len(),
                k <= n,
                forall|j: int| 0 <= j < k ==> filtered@[j] != self.selected,
                found ==> cur == k && k < n && filtered@[k as int] == self.selected,
                !found ==> cur == 0,
            ensures
                found ==> cur < n && filtered@[cur as int] == self.selected && forall|j: int| 0 <= j < cur ==> filtered@[j] != self.selected,
                !found ==> forall|j: int| 0 <= j < n ==> filtered@[j] != self.selected,
            decreases n - k,
        {
            if filtered[k] == self.selected {
                cur = k;
                found = true;
                break;
            }
            k = k + 1;
        }
        proof {
            lemma_position_of(filtered@, self.selected);
            if found {
                assert(position_of(filtered@, self.selected) == Some(cur as int)) by {
                    if position_of(filtered@, self.selected) != Some(cur as int) {
                        match position_of(filtered@, self.selected) {
                            Some(p) => {
                                assert(p >= cur);
                                if p > cur {
                                    assert(filtered@[cur as int] == self.selected);
                                }
                            },
                            None => {},
                        }
                    }
                }
            } else {
                assert(position_of(filtered@, self.selected) is None);
            }
        }
        assert(cur < n);
        let target: i128 = cur as i128 + delta as i128;
        let np: usize = if target <= 0 {
            0
        } else if target >= (n - 1) as i128 {
            n - 1
        } else {
            target as usize
        };
        self.selected = filtered[np];
        self.auto_scroll = self.selected == filtered[n - 1];
        self.ensure_selection_visible(visible_height);
        assert(shown_v(self@) == shown_v(old(self)@)) by {
            assert(self@.lines == old(self)@.lines);
            assert(active_query_v(self@) == active_query_v(old(self)@));
        }
    }

    /// Re-reads the typed text as the live query.
    pub fn update_live_filter(&mut self)
        ensures
            final(self)@ == live_c(old(self)@),
            final(self).filtered_indices_cache == (if live_c(old(self)@).live_query != old(self)@.live_query {
                None
            } else if old(self)@.input matches Some(s) && query_of(s) is Ok {
                None
            } else {
                old(self).filtered_indices_cache
            }),
            final(self).lines == old(self).lines,
            final(self).filter_history == old(self).filter_history,
            final(self).filter_history_index == old(self).filter_history_index,
            final(self).history_search_start == old(self).history_search_start,
    {
        let parsed = match &self.filter_input {
            Some(input) => Some(parse_filter_query(input.as_str())),
            None => None,
        };
        match parsed {
            None => {},
            Some(Ok(query)) => {
                if query.segments.len() > 0 {
                    self.live_filter_query = Some(query);
                } else {
                    self.live_filter_query = None;
                }
                self.live_filter_error = None;
                self.filtered_indices_cache = None;
            },
            Some(Err(msg)) => {
                self.live_filter_error = Some(msg);
            },
        }
    }

    fn reset_prompt_state(&mut self)
        ensures
            final(self)@ == prompt_reset(old(self)@),
            final(self).filtered_indices_cache == old(self).filtered_indices_cache,
            final(self).lines == old(self).lines,
            final(self).filter_history == old(self).filter_history,
            final(self).history_search_start is None,
            final(self).filter_history_index is None,
    {
        self.filter_draft = None;
        self.filter_history_index = None;
        self.history_search_active = false;
        self.history_search_start = None;
    }

    fn push_history(&mut self, value: String)
        ensures
            final(self)@ == (ClassicV { history: history_pushed(old(self)@.history, value@), ..old(self)@ }),
            final(self).filtered_indices_cache == old(self).filtered_indices_cache,
            final(self).lines == old(self).lines,
            final(self).filter_history_index == old(self).filter_history_index,
            final(self).history_search_start == old(self).history_search_start,
    {
        let ghost h = old(self)@.history;
        let n = self.filter_history.len();
        let same = n > 0 && self.filter_history[n - 1] == value;
        if !same {
            self.filter_history.push(value);
            if self.filter_history.len() > HISTORY_LIMIT {
                self.filter_history.remove(0);
            }
        }
        proof {
            let hv = strings_view(self.filter_history@);
            if n > 0 {
                assert(h.last() == old(self).filter_history@[n - 1]@);
            }
            if same {
                assert(hv =~= h);
            } else {
                assert(hv =~= history_pushed(h, value@));
            }
        }
    }

    /// Brings the selection among the shown lines.
    fn clamp_selected(&mut self)
        requires
            app_wf(old(self)),
        ensures
            final(self)@ == clamp_selection(old(self)@),
            app_wf(final(self)),
    {
        let filtered = self.filtered_indices();
        let n = filtered.len();
        if n > 0 {
            if self.selected > filtered[n - 1] {
                self.selected = filtered[n - 1];
            } else {
                let mut k: usize = 0;
                let mut found = false;
                while k < n
                    invariant_except_break
                        !found,
                    invariant
                        n == filtered@.len(),
                        k <= n,
                        forall|j: int| 0 <= j < k ==> filtered@[j] != self.selected,
                    ensures
                        found <==> filtered@.contains(self.selected),
                    decreases n - k,
                {
                    if filtered[k] == self.selected {
                        found = true;
                        break;
                    }
                    k = k + 1;
                }
                if !found {
                    self.selected = filtered[0];
                }
            }
        }
        assert(shown_v(self@) == shown_v(old(self)@)) by {
            assert(self@.lines == old(self)@.lines);
            assert(active_query_v(self@) == active_query_v(old(self)@));
        }
    }

    fn handle_history_up(&mut self)
        requires
            app_wf(old(self)),
        ensures
            final(self)@ == history_up_c(old(self)@),
            app_wf(final(self)),
    {
        let n = self.filter_history.len();
        if n == 0 {
            return;
        }
        if self.filter_history_index.is_none() {
            self.filter_draft = self.filter_input.clone();
        }
        let current = match self.filter_history_index {
            Some(i) => i,
            None => n,
        };
        if current > 0 {
            self.filter_history_index = Some(current - 1);
            let e = self.filter_history[current - 1].clone();
            self.filter_input = Some(e);
            self.filtered_indices_cache = None;
            self.update_live_filter();
        }
    }

    fn handle_history_down(&mut self)
        requires
            app_wf(old(self)),
        ensures
            final(self)@ == history_down_c(old(self)@),
            app_wf(final(self)),
    {
        let n = self.filter_history.len();
        if n == 0 {
            return;
        }
        let current = match self.filter_history_index {
            Some(i) => i,
            None => n,
        };
        if current < n - 1 {
            self.filter_history_index = Some(current + 1);
            let e = self.filter_history[current + 1].clone();
            self.filter_input = Some(e);
        } else {
            self.filter_history_index = None;
            self.filter_input = match &self.filter_draft {
                Some(d) => Some(d.clone()),
                None => Some(String::new()),
            };
        }
        self.filtered_indices_cache = None;
        self.update_live_filter();
    }

    fn show_found(&mut self, i: usize)
        requires
            app_wf(old(self)),
            i < old(self).filter_history@.len(),
        ensures
            final(self)@ == found_c(old(self)@, i as int),
            app_wf(final(self)),
    {
        let e = self.filter_history[i].clone();
        assert(e@ == old(self)@.history[i as int]);
        self.filter_input = Some(e);
        self.history_search_start = Some(i);
        self.history_search_active = true;
        self.filtered_indices_cache = None;
        self.update_live_filter();
    }

    /// The newest history entry in `[lo, hi)` containing `term`.
    fn find_newest(&self, term: &str, lo: usize, hi: usize) -> (r: Option<usize>)
        requires
            lo <= hi <= self.filter_history@.len(),
        ensures
            index_view(r) == newest_match(self@.history, term@, lo as int, hi as int),
            r matches Some(i) ==> lo <= i < hi,
    {
        proof {
            lemma_newest_match(self@.history, term@, lo as int, hi as int);
        }
        let mut i = hi;
        while i > lo
            invariant
                lo <= i <= hi <= self.filter_history@.len(),
                newest_match(self@.history, term@, lo as int, i as int) == newest_match(
                    self@.history,
                    term@,
                    lo as int,
                    hi as int,
                ),
            decreases i - lo,
        {
            assert(self@.history[i - 1] == self.filter_history@[i - 1]@);
            if str_contains(self.filter_history[i - 1].as_str(), term) {
                return Some(i - 1);
            }
            i = i - 1;
        }
        None
    }

    fn handle_history_search(&mut self)
        requires
            app_wf(old(self)),
        ensures
            final(self)@ == history_search_c(old(self)@),
            app_wf(final(self)),
    {
        let n = self.filter_history.len();
        if n == 0 {
            return;
        }
        let term = match &self.filter_draft {
            Some(d) => d.clone(),
            None => match &self.filter_input {
                Some(s) => s.clone(),
                None => String::new(),
            },
        };
        let start = match self.history_search_start {
            Some(i) => i,
            None => n,
        };
        match self.find_newest(term.as_str(), 0, start) {
            Some(i) => {
                self.show_found(i);
                return;
            },
            None => {},
        }
        if start < n {
            match self.find_newest(term.as_str(), start, n) {
                Some(i) => {
                    self.show_found(i);
                },
                None => {},
            }
        }
    }

    /// Handles a key press while the prompt is open.
    #[verifier::spinoff_prover]
    #[verifier::rlimit(50)]
    pub fn handle_filter_input(&mut self, key: KeyEvent)
        requires
            app_wf(old(self)),
        ensures
            final(self)@ == prompt_key(old(self)@, key),
            app_wf(final(self)),
    {
        let ctrl = key.ctrl();
        match key.code {
            KeyCode::Enter => {
                match self.filter_input.take() {
                    Some(input) => {
                        match parse_filter_query(input.as_str()) {
                            Ok(query) => {
                                if query.segments.len() > 0 {
                                    self.filter_query = Some(query);
                                    self.filter_error = None;
                                    self.live_filter_query = None;
                                    self.live_filter_error = None;
                                    self.filtered_indices_cache = None;
                                    self.push_history(input);
                                } else {
                                    self.filter_query = None;
                                    self.filter_error = None;
                                    self.live_filter_query = None;
                                    self.live_filter_error = None;
                                    self.filtered_indices_cache = None;
                                }
                            },
                            Err(msg) => {
                                self.filter_error = Some(msg.duplicate());
                                self.live_filter_error = Some(msg);
                                self.filter_input = Some(input);
                            },
                        }
                    },
                    None => {},
                }
                self.reset_prompt_state();
                self.clamp_selected();
            },
            KeyCode::Esc => {
                self.cancel_prompt();
            },
            KeyCode::Backspace => {
                let edited = match &self.filter_input {
                    Some(input) => {
                        let v = crate::text::chars_of(input.as_str());
                        if v.len() == 0 {
                            None
                        } else {
                            let t = crate::text::string_of_range(v.as_slice(), 0, v.len() - 1);
                            assert(v@.subrange(0, v@.len() - 1) =~= input@.drop_last());
                            Some(t)
                        }
                    },
                    None => None,
                };
                match edited {
                    Some(t) => {
                        self.filter_input = Some(t);
                        self.filter_error = None;
                        self.history_search_active = false;
                        self.history_search_start = None;
                        self.update_live_filter();
                    },
                    None => {},
                }
            },
            KeyCode::Up => {
                self.history_search_active = false;
                self.history_search_start = None;
                self.handle_history_up();
            },
            KeyCode::Down => {
                self.history_search_active = false;
                self.history_search_start = None;
                self.handle_history_down();
            },
            KeyCode::Char(c) => {
                if ctrl && c == 'c' {
                    self.cancel_prompt();
                } else if ctrl && c == 'r' {
                    self.handle_history_search();
                } else {
                    let edited = match &self.filter_input {
                        Some(input) => {
                            let mut v = crate::text::chars_of(input.as_str());
                            v.push(c);
                            Some(crate::text::string_of(v.as_slice()))
                        },
                        None => None,
                    };
                    match edited {
                        Some(t) => {
                            self.filter_input = Some(t);
                            self.filter_error = None;
                            self.history_search_active = false;
                            self.history_search_start = None;
                            self.update_live_filter();
                        },
                        None => {},
                    }
                }
            },
            _ => {},
        }
    }

    fn cancel_prompt(&mut self)
        requires
            app_wf(old(self)),
        ensures
            final(self)@ == prompt_cancelled(old(self)@),
            app_wf(final(self)),
    {
        self.filter_input = None;
        self.filter_error = None;
        self.live_filter_query = None;
        self.live_filter_error = None;
        self.filter_draft = None;
        self.filter_history_index = None;
        self.history_search_active = false;
        self.history_search_start = None;
        self.filtered_indices_cache = None;
    }

    /// Quits.
    pub fn handle_ctrl_x(&mut self)
        ensures
            final(self)@ == (ClassicV { should_quit: true, ..old(self)@ }),
            final(self).filtered_indices_cache == old(self).filtered_indices_cache,
            final(self).lines == old(self).lines,
            final(self).filter_history == old(self).filter_history,
            final(self).filter_history_index == old(self).filter_history_index,
            final(self).history_search_start == old(self).history_search_start,
    {
        self.should_quit = true;
    }

    /// Handles a key press in the list view.
    pub fn handle_list_key(&mut self, key: KeyEvent, visible_height: usize)
        requires
            app_wf(old(self)),
            visible_height <= u16::MAX,
        ensures
            final(self)@ == list_key(old(self)@, key, visible_height as int),
            app_wf(final(self)),
    {
        let filtered = self.filtered_indices();
        let n = filtered.len();
        let exact_ctrl = key.modifiers == crate::keys::CONTROL;
        let half: usize = if visible_height / 2 >= 1 {
            visible_height / 2
        } else {
            1
        };
        proof {
            lemma_shown_bounds(old(self));
        }
        match key.code {
            KeyCode::Char(c) => {
                self.handle_list_char(key, c, filtered, visible_height);
            },
            KeyCode::Down => {
                self.move_selection(1, visible_height);
            },
            KeyCode::Up => {
                self.move_selection(-1, visible_height);
            },
            KeyCode::Enter => {
                if n > 0 {
                    self.view_mode = ViewMode::Detail;
                    self.detail_scroll = 0;
                }
                assert(shown_v(self@) == shown_v(old(self)@));
            },
            KeyCode::Esc => {
                self.filter_query = None;
                self.filtered_indices_cache = None;
            },
            _ => {},
        }
    }

    fn handle_list_char(&mut self, key: KeyEvent, c: char, filtered: Vec<usize>, visible_height: usize)
        requires
            app_wf(old(self)),
            visible_height <= u16::MAX,
            key.code == KeyCode::Char(c),
            filtered@ == shown(old(self)),
        ensures
            final(self)@ == list_key(old(self)@, key, visible_height as int),
            app_wf(final(self)),
    {
        let n = filtered.len();
        let exact_ctrl = key.modifiers == crate::keys::CONTROL;
        let half: usize = if visible_height / 2 >= 1 {
            visible_height / 2
        } else {
            1
        };
        proof {
            lemma_shown_bounds(old(self));
        }
        if exact_ctrl && c == 'x' {
            self.handle_ctrl_x();
        } else if c == 'j' {
            self.move_selection(1, visible_height);
        } else if c == 'k' {
            self.move_selection(-1, visible_height);
        } else if c == 'G' && n > 0 {
            self.selected = filtered[n - 1];
            self.auto_scroll = true;
            self.ensure_selection_visible(visible_height);
        } else if exact_ctrl && c == 'd' {
            self.move_selection(half as isize, visible_height);
        } else if exact_ctrl && c == 'u' {
            self.move_selection(-(half as isize), visible_height);
        } else if exact_ctrl && c == 'f' {
            self.move_selection(visible_height as isize, visible_height);
        } else if exact_ctrl && c == 'b' {
            self.move_selection(-(visible_height as isize), visible_height);
        } else if exact_ctrl && c == 'e' {
            self.move_selection(1, visible_height);
        } else if exact_ctrl && c == 'y' {
            self.move_selection(-1, visible_height);
        } else if c == '/' {
            let n = self.filter_history.len();
            let preset = if n > 0 {
                self.filter_history[n - 1].clone()
            } else {
                String::new()
            };
            self.filter_input = Some(preset);
            self.filter_history_index = if n == 0 {
                None
            } else {
                Some(n - 1)
            };
            self.filter_draft = None;
            self.history_search_active = false;
            self.history_search_start = None;
            self.filtered_indices_cache = None;
            self.update_live_filter();
        }
        assert(app_wf(self)) by {
            if self.filtered_indices_cache is Some {
                assert(shown_v(self@) == shown_v(old(self)@));
            }
        }
    }

    /// Handles a key press in the detail view.
    pub fn handle_detail_key(&mut self, key: KeyEvent, visible_height: usize)
        requires
            app_wf(old(self)),
            visible_height <= u16::MAX,
        ensures
            final(self)@ == detail_key(old(self)@, key, visible_height as int),
            app_wf(final(self)),
    {
        let exact_ctrl = key.modifiers == crate::keys::CONTROL;
        let half: u16 = if visible_height / 2 >= 1 {
            (visible_height / 2) as u16
        } else {
            1
        };
        let page = visible_height as u16;
        match key.code {
            KeyCode::Char(c) => {
                if exact_ctrl && c == 'x' {
                    self.handle_ctrl_x();
                } else if c == 'q' {
                    self.view_mode = ViewMode::List;
                } else if c == 'j' {
                    self.detail_scroll = self.detail_scroll.saturating_add(1);
                } else if c == 'k' {
                    self.detail_scroll = self.detail_scroll.saturating_sub(1);
                } else if exact_ctrl && c == 'd' {
                    self.detail_scroll = self.detail_scroll.saturating_add(half);
                } else if exact_ctrl && c == 'u' {
                    self.detail_scroll = self.detail_scroll.saturating_sub(half);
                } else if exact_ctrl && c == 'f' {
                    self.detail_scroll = self.detail_scroll.saturating_add(page);
                } else if exact_ctrl && c == 'b' {
                    self.detail_scroll = self.detail_scroll.saturating_sub(page);
                } else if exact_ctrl && c == 'e' {
                    self.detail_scroll = self.detail_scroll.saturating_add(1);
                } else if exact_ctrl && c == 'y' {
                    self.detail_scroll = self.detail_scroll.saturating_sub(1);
                }
            },
            KeyCode::Backspace => {
                self.view_mode = ViewMode::List;
            },
            KeyCode::Esc => {
                self.view_mode = ViewMode::List;
            },
            KeyCode::Down => {
                self.detail_scroll = self.detail_scroll.saturating_add(1);
            },
            KeyCode::Up => {
                self.detail_scroll = self.detail_scroll.saturating_sub(1);
            },
            _ => {},
        }
        assert(app_wf(self)) by {
            if self.filtered_indices_cache is Some {
                assert(shown_v(self@) == shown_v(old(self)@));
            }
        }
    }

    /// Arms or disarms the Ctrl-C quit, and quits when `quit`.
    fn set_interrupt(&mut self, pending: bool, quit: bool)
        requires
            app_wf(old(self)),
        ensures
            final(self)@ == (ClassicV {
                interrupt_pending: pending,
                should_quit: old(self).should_quit || quit,
                ..old(self)@
            }),
            app_wf(final(self)),
    {
        self.interrupt_pending = pending;
        if quit {
            self.should_quit = true;
        }
        assert(shown_v(self@) == shown_v(old(self)@));
    }

    /// Handles a terminal event on a screen of `height` rows.
    pub fn handle_event(&mut self, ev: InputEvent, height: u16)
        requires
            app_wf(old(self)),
        ensures
            final(self)@ == event_step(old(self)@, ev, height as int),
            app_wf(final(self)),
    {
        match ev {
            InputEvent::Key(key) => {
                if key.kind != KeyKind::Press {
                    return;
                }
                let vh = self.visible_height(height);
                if self.filter_input.is_some() {
                    self.handle_filter_input(key);
                    self.set_interrupt(false, false);
                    return;
                }
                if key.code == KeyCode::Char('c') && key.modifiers == crate::keys::CONTROL {
                    if self.interrupt_pending {
                        self.set_interrupt(false, true);
                    } else {
                        self.set_interrupt(true, false);
                    }
                    return;
                }
                match self.view_mode {
                    ViewMode::List => self.handle_list_key(key, vh),
                    ViewMode::Detail => self.handle_detail_key(key, vh),
                }
                self.set_interrupt(false, false);
            },
            _ => {},
        }
    }

    /// Follows the newest shown line while auto-scroll is on.
    pub fn update_auto_scroll(&mut self, visible_height: usize)
        requires
            app_wf(old(self)),
        ensures
            final(self)@ == auto_scrolled(old(self)@, visible_height as int),
            app_wf(final(self)),
            final(self).lines == old(self).lines && final(self).colors == old(self).colors,
    {
        if !self.auto_scroll {
            return;
        }
        let filtered = self.filtered_indices();
        let n = filtered.len();
        if n == 0 {
            return;
        }
        self.selected = filtered[n - 1];
        self.scroll_offset = n.saturating_sub(visible_height);
        assert(app_wf(self)) by {
            assert(shown_v(self@) == shown_v(old(self)@));
        }
    }
}

/// The last character boundary of `bytes` at or before `end`.
pub open spec fn boundary_at_or_before(bytes: Seq<u8>, end: int) -> int
    decreases end,
{
    if end <= 0 || is_char_boundary(bytes, end) {
        end
    } else {
        boundary_at_or_before(bytes, end - 1)
    }
}

/// `s` cut to `max_len` bytes: whole when it fits, otherwise its longest
/// prefix of whole characters within `max_len` bytes, followed by `…`.
pub open spec fn byte_truncated(s: Seq<char>, max_len: int) -> Seq<char> {
    let b = encode_utf8(s);
    if b.len() <= max_len {
        s
    } else {
        decode_utf8(b.subrange(0, boundary_at_or_before(b, max_len))) + seq!['…']
    }
}

/// Truncates `s` to at most `max_len` bytes (on a character boundary), marking
/// a cut with `…`.
pub fn truncate_str(s: &str, max_len: usize) -> (r: String)
    ensures
        r@ == byte_truncated(s@, max_len as int),
{
    proof {
        encode_utf8_valid_utf8(s@);
        is_char_boundary_start_end_of_seq(s.spec_bytes());
    }
    let bytes = s.as_bytes();
    if bytes.len() <= max_len {
        return s.to_owned();
    }
    let mut end = max_len;
    while !s.is_char_boundary(end) && end > 0
        invariant
            end <= max_len,
            max_len < s.spec_bytes().len(),
            boundary_at_or_before(s.spec_bytes(), end as int) == boundary_at_or_before(
                s.spec_bytes(),
                max_len as int,
            ),
        decreases end,
    {
        end = end - 1;
    }
    let (head, _) = s.split_at(end);
    proof {
        encode_utf8_decode_utf8(head@);
    }
    let mut v = crate::text::chars_of(head);
    v.push('…');
    crate::text::string_of(v.as_slice())
}

/// What the viewer shows after each input line of a scripted session.
#[derive(Debug, Clone)]
pub struct AppState {
    pub lines: Vec<String>,
    pub view_mode: String,
    pub selected: usize,
    pub scroll_offset: usize,
    pub filter: Option<String>,
    pub auto_scroll: bool,
    pub detail_scroll: u16,
    pub filter_input: Option<String>,
    pub should_quit: bool,
    pub total_lines: usize,
    pub filtered_count: usize,
}

/// The name of a view.
pub open spec fn view_name(m: ViewMode) -> Seq<char> {
    match m {
        ViewMode::List => seq!['l', 'i', 's', 't'],
        ViewMode::Detail => seq!['d', 'e', 't', 'a', 'i', 'l'],
    }
}

/// The applied query as it was typed: the newest history entry, which is
/// the last query submitted.
pub open spec fn applied_text(v: ClassicV) -> Option<Seq<char>> {
    if v.query is Some && v.history.len() > 0 {
        Some(v.history.last())
    } else {
        None
    }
}

/// The key a script names: `C-` and a character for that character with
/// control, one character for itself, or the name of a special key.
pub open spec fn key_named(n: Seq<char>) -> Option<KeyEvent> {
    let press = |code: KeyCode, m: u8| Some(KeyEvent { code, modifiers: m, kind: KeyKind::Press });
    if n.len() == 3 && n[0] == 'C' && n[1] == '-' {
        press(KeyCode::Char(n[2]), crate::keys::CONTROL)
    } else if n.len() == 1 {
        press(KeyCode::Char(n[0]), 0)
    } else if n == seq!['E', 'n', 't', 'e', 'r'] {
        press(KeyCode::Enter, 0)
    } else if n == seq!['E', 's', 'c'] {
        press(KeyCode::Esc, 0)
    } else if n == seq!['B', 'a', 'c', 'k', 's', 'p', 'a', 'c', 'e'] {
        press(KeyCode::Backspace, 0)
    } else if n == seq!['U', 'p'] {
        press(KeyCode::Up, 0)
    } else if n == seq!['D', 'o', 'w', 'n'] {
        press(KeyCode::Down, 0)
    } else {
        None
    }
}

/// Whether `line` is a command line of a script (`CMD:` and a key name).
pub open spec fn is_command(line: Seq<char>) -> bool {
    line.len() >= 4 && line.subrange(0, 4) == seq!['C', 'M', 'D', ':']
}

fn chars_are(v: &[char], w: &[char]) -> (r: bool)
    ensures
        r == (v@ == w@),
{
    if v.len() != w.len() {
        return false;
    }
    let mut i: usize = 0;
    while i < v.len()
        invariant
            v@.len() == w@.len(),
            i <= v@.len(),
            forall|j: int| 0 <= j < i ==> v@[j] == w@[j],
        decreases v@.len() - i,
    {
        if v[i] != w[i] {
            return false;
        }
        i = i + 1;
    }
    assert(v@ =~= w@);
    true
}

/// The key that a script names.
pub fn key_from_name(n: &[char]) -> (r: Option<KeyEvent>)
    ensures
        r == key_named(n@),
{
    let enter = ['E', 'n', 't', 'e', 'r'];
    let esc = ['E', 's', 'c'];
    let backspace = ['B', 'a', 'c', 'k', 's', 'p', 'a', 'c', 'e'];
    let up = ['U', 'p'];
    let down = ['D', 'o', 'w', 'n'];
    assert(enter@ == seq!['E', 'n', 't', 'e', 'r']);
    assert(esc@ == seq!['E', 's', 'c']);
    assert(backspace@ == seq!['B', 'a', 'c', 'k', 's', 'p', 'a', 'c', 'e']);
    assert(up@ == seq!['U', 'p']);
    assert(down@ == seq!['D', 'o', 'w', 'n']);
    if n.len() == 3 && n[0] == 'C' && n[1] == '-' {
        Some(KeyEvent::new(KeyCode::Char(n[2]), crate::keys::CONTROL))
    } else if n.len() == 1 {
        Some(KeyEvent::new(KeyCode::Char(n[0]), 0))
    } else if chars_are(n, &enter) {
        Some(KeyEvent::new(KeyCode::Enter, 0))
    } else if chars_are(n, &esc) {
        Some(KeyEvent::new(KeyCode::Esc, 0))
    } else if chars_are(n, &backspace) {
        Some(KeyEvent::new(KeyCode::Backspace, 0))
    } else if chars_are(n, &up) {
        Some(KeyEvent::new(KeyCode::Up, 0))
    } else if chars_are(n, &down) {
        Some(KeyEvent::new(KeyCode::Down, 0))
    } else {
        None
    }
}

/// One scripted step on a screen of `height` rows: a command line presses
/// its key, any other line is added; then the view follows the newest line.
pub open spec fn script_step(v: ClassicV, line: Seq<char>, height: int) -> ClassicV {
    let v1 = if is_command(line) {
        match key_named(line.subrange(4, line.len() as int)) {
            Some(k) => event_step(v, InputEvent::Key(k), height),
            None => v,
        }
    } else {
        v
    };
    v1
}

impl App {
    /// What the viewer shows now.
    pub fn snapshot(&mut self) -> (st: AppState)
        requires
            app_wf(old(self)),
        ensures
            final(self)@ == old(self)@,
            app_wf(final(self)),
            strings_view(st.lines@) == old(self)@.lines,
            st.view_mode@ == view_name(old(self).view_mode),
            st.selected == old(self).selected,
            st.scroll_offset == old(self).scroll_offset,
            string_view(st.filter) == applied_text(old(self)@),
            st.auto_scroll == old(self).auto_scroll,
            st.detail_scroll == old(self).detail_scroll,
            string_view(st.filter_input) == old(self)@.input,
            st.should_quit == old(self).should_quit,
            st.total_lines == old(self).lines@.len(),
            st.filtered_count == shown(old(self)).len(),
    {
        let filtered = self.filtered_indices();
        let mut lines: Vec<String> = Vec::new();
        let mut i: usize = 0;
        while i < self.lines.len()
            invariant
                i <= self.lines@.len(),
                strings_view(lines@) == texts(self.lines@).subrange(0, i as int),
            decreases self.lines@.len() - i,
        {
            let ghost before = lines@;
            let t = self.lines[i].text.clone();
            lines.push(t);
            proof {
                assert(strings_view(lines@) =~= strings_view(before).push(t@));
                assert(texts(self.lines@)[i as int] == t@);
                assert(texts(self.lines@).subrange(0, i + 1) =~= texts(self.lines@).subrange(0, i as int).push(t@));
            }
            i = i + 1;
        }
        assert(texts(self.lines@).subrange(0, i as int) =~= texts(self.lines@));
        let view_mode = match self.view_mode {
            ViewMode::List => {
                let v = ['l', 'i', 's', 't'];
                assert(v@ == view_name(ViewMode::List));
                crate::text::string_of(&v)
            },
            ViewMode::Detail => {
                let v = ['d', 'e', 't', 'a', 'i', 'l'];
                assert(v@ == view_name(ViewMode::Detail));
                crate::text::string_of(&v)
            },
        };
        let nh = self.filter_history.len();
        let filter = if self.filter_query.is_some() && nh > 0 {
            assert(self@.history.last() == self.filter_history@[nh - 1]@);
            Some(self.filter_history[nh - 1].clone())
        } else {
            None
        };
        AppState {
            lines,
            view_mode,
            selected: self.selected,
            scroll_offset: self.scroll_offset,
            filter,
            auto_scroll: self.auto_scroll,
            detail_scroll: self.detail_scroll,
            filter_input: self.filter_input.clone(),
            should_quit: self.should_quit,
            total_lines: self.lines.len(),
            filtered_count: filtered.len(),
        }
    }

    /// Runs one line of a script on a screen of `height` rows and reports
    /// what the viewer then shows.
    pub fn script_line(&mut self, line: &str, height: u16) -> (st: AppState)
        requires
            app_wf(old(self)),
        ensures
            app_wf(final(self)),
            is_command(line@) ==> final(self)@ == auto_scrolled(
                script_step(old(self)@, line@, height as int),
                rows_for_lines(script_step(old(self)@, line@, height as int), height as int),
            ),
    {
        match script_command(line) {
            Some(Some(k)) => self.handle_event(InputEvent::Key(k), height),
            Some(None) => {},
            None => {
                if self.lines.len() < usize::MAX - 2 {
                    self.add_line(line.to_owned());
                }
            },
        }
        let vh = self.visible_height(height);
        self.update_auto_scroll(vh);
        self.snapshot()
    }
}

/// Reads a script line: `None` for a line of text, the named key (if the
/// name is known) for a command line.
pub fn script_command(line: &str) -> (r: Option<Option<KeyEvent>>)
    ensures
        r is None <==> !is_command(line@),
        r matches Some(k) ==> k == key_named(line@.subrange(4, line@.len() as int)),
{
    let cs = crate::text::chars_of(line);
    if cs.len() >= 4 && cs[0] == 'C' && cs[1] == 'M' && cs[2] == 'D' && cs[3] == ':' {
        assert(cs@.subrange(0, 4) =~= seq!['C', 'M', 'D', ':']);
        let mut rest: Vec<char> = Vec::new();
        let mut i: usize = 4;
        while i < cs.len()
            invariant
                4 <= i <= cs@.len(),
                rest@ == cs@.subrange(4, i as int),
            decreases cs@.len() - i,
        {
            rest.push(cs[i]);
            i = i + 1;
            assert(rest@ =~= cs@.subrange(4, i as int));
        }
        Some(key_from_name(rest.as_slice()))
    } else {
        proof {
            if is_command(line@) {
                assert(cs@.subrange(0, 4)[0] == 'C');
                assert(cs@.subrange(0, 4)[1] == 'M');
                assert(cs@.subrange(0, 4)[2] == 'D');
                assert(cs@.subrange(0, 4)[3] == ':');
            }
        }
        None
    }
}

} // verus!
