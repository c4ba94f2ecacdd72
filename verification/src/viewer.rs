//! The viewer: lines as they arrive, which of them the filter shows, which
//! are expanded, the selection and the scroll position in screen rows, and
//! the key presses that move them.
use vstd::prelude::*;
use base64::Engine;
use std::collections::{HashSet, VecDeque};
use crate::classic::{all_indices, clamp, lemma_position_of, passing, position_of};
use crate::filter::{FilterQuery, LineFormatTemplate, PartV, SegmentV, query_holds, template_format};
use crate::filter_state::{
    FilterState, FilterStateV, LogEntry, active_query, first_template, prompt_key_handled, state_wf,
};
use crate::highlight::{HighlightColors, highlighted_view, highlight_line};
use crate::input::LineSource;
use crate::keys::{CONTROL, KeyCode, KeyEvent, KeyKind, TextInput, has_control};
use crate::render::{cap, wrapped_height, wrapped_text_height_capped};
use crate::style::text_view;

verus! {

broadcast use vstd::std_specs::hash::group_hash_axioms;

/// The width of the timestamp column, separator included (`HH:MM:SS.mmm `).
pub const TIMESTAMP_WIDTH: usize = 13;

/// A key and what it does, for the shortcut bar.
pub struct ShortcutItem {
    pub key: &'static str,
    pub desc: String,
}

/// What the viewer computed last and can reuse: the shown indices, and for
/// one content width the height of each shown entry with the running totals.
pub struct RenderCache {
    pub filtered_indices: Option<Vec<usize>>,
    pub row_layout: Option<(usize, Vec<usize>, Vec<usize>)>,
}

impl RenderCache {
    /// Nothing computed yet.
    pub fn new() -> (c: RenderCache)
        ensures
            c.filtered_indices is None && c.row_layout is None,
    {
        RenderCache { filtered_indices: None, row_layout: None }
    }

    /// Forgets everything computed.
    pub fn invalidate(&mut self)
        ensures
            final(self).filtered_indices is None && final(self).row_layout is None,
    {
        self.filtered_indices = None;
        self.row_layout = None;
    }
}

/// Work that the viewer asks its surroundings to do.
#[derive(Debug, Clone, PartialEq)]
pub enum AppAction {
    Nothing,
    StartRecording(String),
    StopRecording,
    Copy(String),
}

/// The viewer's state.
pub struct App {
    pub lines: VecDeque<LogEntry>,
    pub selected: usize,
    pub scroll_offset: usize,
    pub auto_scroll: bool,
    pub max_lines: usize,
    pub should_quit: bool,
    pub colors: HighlightColors,
    pub filter: FilterState,
    pub cache: RenderCache,
    pub pending_g: bool,
    pub pending_z: bool,
    pub expanded: HashSet<usize>,
    pub expand_all: bool,
    pub process_exited: bool,
    pub show_help: bool,
    pub help_scroll: u16,
    pub recording: Option<String>,
    pub command_input: Option<TextInput>,
    pub command_error: Option<String>,
    pub context_mode: bool,
    pub context_center: usize,
    pub main_selected: usize,
    pub main_scroll_offset: usize,
    pub main_auto_scroll: bool,
    pub main_expanded: HashSet<usize>,
    pub main_expand_all: bool,
}

/// The texts of the lines.
pub open spec fn line_texts(lines: Seq<LogEntry>) -> Seq<Seq<char>> {
    lines.map_values(|e: LogEntry| e.text@)
}

/// The indices of the lines shown: every line in context mode; otherwise
/// those passing the query in force (every line when there is none).
pub open spec fn shown(app: &App) -> Seq<usize> {
    let n = app.lines@.len() as int;
    if app.context_mode {
        all_indices(n)
    } else {
        match active_query(app.filter@) {
            Some(q) => if q.len() > 0 {
                passing(line_texts(app.lines@), q, n)
            } else {
                all_indices(n)
            },
            None => all_indices(n),
        }
    }
}

/// The template of the query in force, if it has one.
pub open spec fn line_format(app: &App) -> Option<Seq<PartV>> {
    match active_query(app.filter@) {
        Some(q) => first_template(q, 0),
        None => None,
    }
}

/// The text shown for line `idx`: formatted by the template in force when
/// there is one and the line is JSON, as it is otherwise.
pub open spec fn display_text(app: &App, idx: int) -> Seq<char> {
    let text = app.lines@[idx].text@;
    match line_format(app) {
        Some(parts) => match template_format(parts, text) {
            Some(s) => s,
            None => text,
        },
        None => text,
    }
}

/// Whether line `idx` is expanded.
pub open spec fn expanded_at(app: &App, idx: int) -> bool {
    app.expand_all || app.expanded@.contains(idx as usize)
}

/// The screen rows line `idx` takes at `width` columns: one when collapsed,
/// the rows of its highlighted, wrapped text when expanded.
pub open spec fn entry_height(app: &App, idx: int, width: nat) -> usize {
    if !expanded_at(app, idx) {
        1
    } else {
        cap(wrapped_height(highlighted_view(display_text(app, idx), app.colors), width))
    }
}

/// The rows of each shown line.
pub open spec fn row_heights(app: &App, width: nat) -> Seq<usize> {
    let f = shown(app);
    Seq::new(f.len(), |k: int| entry_height(app, f[k] as int, width))
}

/// `a + b` capped at the largest `usize`.
pub open spec fn sat_add(a: usize, b: usize) -> usize {
    if a + b > usize::MAX {
        usize::MAX
    } else {
        (a + b) as usize
    }
}

/// The running totals of `h`, starting at zero (capped additions).
pub open spec fn prefix_sums(h: Seq<usize>) -> Seq<usize>
    decreases h.len(),
{
    if h.len() == 0 {
        seq![0usize]
    } else {
        let p = prefix_sums(h.drop_last());
        p.push(sat_add(p.last(), h.last()))
    }
}

pub proof fn lemma_prefix_sums_mono(h: Seq<usize>)
    ensures
        forall|i: int, j: int| 0 <= i <= j < prefix_sums(h).len() ==> prefix_sums(h)[i] <= prefix_sums(h)[j],
    decreases h.len(),
{
    lemma_prefix_sums_len(h);
    if h.len() > 0 {
        let d = h.drop_last();
        lemma_prefix_sums_mono(d);
        lemma_prefix_sums_len(d);
        let p = prefix_sums(d);
        let q = prefix_sums(h);
        assert(q == p.push(sat_add(p.last(), h.last())));
        assert forall|i: int, j: int| 0 <= i <= j < q.len() implies q[i] <= q[j] by {
            if j < p.len() {
                assert(q[i] == p[i]);
                assert(q[j] == p[j]);
            } else if i < j {
                assert(q[i] == p[i]);
                assert(p[i] <= p[p.len() - 1]);
                assert(q[j] >= p.last());
            }
        }
    }
}

pub proof fn lemma_prefix_sums_len(h: Seq<usize>)
    ensures
        prefix_sums(h).len() == h.len() + 1,
        prefix_sums(h)[0] == 0,
    decreases h.len(),
{
    if h.len() > 0 {
        lemma_prefix_sums_len(h.drop_last());
    }
}


/// `n` capped at the largest `usize` (for possibly negative `n`, floored at zero).
pub open spec fn to_usize(n: int) -> usize {
    if n < 0 {
        0
    } else if n > usize::MAX {
        usize::MAX
    } else {
        n as usize
    }
}

/// The scroll offset that shows the shown entry at position `p`, whose rows
/// start at `first` and number `hgt`: moved up to its first row, or down
/// just enough to show its last row.
pub open spec fn visible_offset(offset: int, first: int, hgt: int, vh: int) -> int {
    let o1 = if offset > first {
        first
    } else {
        offset
    };
    if first + hgt > o1 + vh {
        first + hgt - vh
    } else {
        o1
    }
}

/// The scroll offset after making the selection visible at `width` columns.
pub open spec fn offset_showing_selection(app: &App, vh: nat, width: nat) -> usize {
    let f = shown(app);
    match position_of(f, app.selected) {
        None => app.scroll_offset,
        Some(p) => {
            let h = row_heights(app, width);
            let ps = prefix_sums(h);
            to_usize(visible_offset(app.scroll_offset as int, ps[p] as int, h[p] as int, vh as int))
        },
    }
}

/// The position among the shown lines that the selection counts from: its
/// own, or the first when it is not shown.
pub open spec fn current_pos(app: &App) -> int {
    match position_of(shown(app), app.selected) {
        Some(p) => p,
        None => 0,
    }
}

/// The last index `i` with `ps[i] <= target`, searching from `i` down.
pub open spec fn last_at_or_below(ps: Seq<usize>, target: int, i: int) -> int
    decreases i,
{
    if i <= 0 {
        0
    } else if ps[i] <= target {
        i
    } else {
        last_at_or_below(ps, target, i - 1)
    }
}

/// Scrolling one row inside the selected entry when it is expanded and
/// taller than the screen: forward while its last row is below the screen,
/// back while its first row is above. `None` when there is no room, and the
/// new scroll offset otherwise.
pub open spec fn scroll_within(app: &App, forward: bool, vh: nat, width: nat) -> Option<usize> {
    if !expanded_at(app, app.selected as int) {
        None
    } else {
        match position_of(shown(app), app.selected) {
            None => None,
            Some(p) => {
                let h = row_heights(app, width);
                let first = prefix_sums(h)[p] as int;
                let hgt = h[p] as int;
                let off = app.scroll_offset as int;
                if hgt <= vh {
                    None
                } else if forward {
                    if off + vh < first + hgt {
                        Some(to_usize(off + 1))
                    } else {
                        None
                    }
                } else if off > first {
                    Some((off - 1) as usize)
                } else {
                    None
                }
            },
        }
    }
}

/// The screen row a page move lands on: the selection's first row moved by
/// `delta` rows, kept within the rows there are.
pub open spec fn page_target(app: &App, delta: int, width: nat) -> int {
    let ps = prefix_sums(row_heights(app, width));
    clamp(ps[current_pos(app)] + delta, 0, ps.last() - 1)
}

pub proof fn lemma_scroll_within_unfold(app: &App, forward: bool, vh: nat, width: nat, p: int)
    requires
        expanded_at(app, app.selected as int),
        position_of(shown(app), app.selected) == Some(p),
    ensures
        ({
            let h = row_heights(app, width);
            let first = prefix_sums(h)[p] as int;
            let hgt = h[p] as int;
            let off = app.scroll_offset as int;
            scroll_within(app, forward, vh, width) == if hgt <= vh {
                None
            } else if forward {
                if off + vh < first + hgt {
                    Some(to_usize(off + 1))
                } else {
                    None
                }
            } else if off > first {
                Some((off - 1) as usize)
            } else {
                None
            }
        }),
{
}

/// Whether a newly arrived line with text `t` is shown.
pub open spec fn shows_new(app: &App, t: Seq<char>) -> bool {
    app.context_mode || match active_query(app.filter@) {
        Some(q) => query_holds(q, t),
        None => true,
    }
}

/// The text that marks the end of the command being read.
pub open spec fn exit_marker() -> Seq<char> {
    seq!['p', 'r', 'o', 'c', 'e', 's', 's', ' ', 'e', 'x', 'i', 't', 'e', 'd']
}

/// The scroll offset that puts the selected entry in the middle of the
/// screen: half of the rows it leaves free above it.
pub open spec fn centered_offset(app: &App, vh: nat, width: nat) -> usize {
    match position_of(shown(app), app.selected) {
        None => app.scroll_offset,
        Some(p) => {
            let h = row_heights(app, width);
            let first = prefix_sums(h)[p] as int;
            let free = if vh >= h[p] {
                vh - h[p]
            } else {
                0
            };
            to_usize(first - free / 2)
        },
    }
}

/// The base64 digit for the six-bit value `v`: `A`-`Z`, `a`-`z`, `0`-`9`,
/// `+`, `/`.
pub open spec fn base64_digit(v: int) -> char {
    if v < 26 {
        (65 + v) as char
    } else if v < 52 {
        (97 + v - 26) as char
    } else if v < 62 {
        (48 + v - 52) as char
    } else if v == 62 {
        '+'
    } else {
        '/'
    }
}

/// The standard base64 encoding of `bytes` with padding: every three bytes
/// become four digits of six bits each; a last group of one or two bytes is
/// filled up with `=`.
pub open spec fn spec_base64(bytes: Seq<u8>) -> Seq<char>
    decreases bytes.len(),
{
    if bytes.len() == 0 {
        Seq::empty()
    } else if bytes.len() == 1 {
        let b0 = bytes[0] as int;
        seq![base64_digit(b0 / 4), base64_digit((b0 % 4) * 16), '=', '=']
    } else if bytes.len() == 2 {
        let b0 = bytes[0] as int;
        let b1 = bytes[1] as int;
        seq![base64_digit(b0 / 4), base64_digit((b0 % 4) * 16 + b1 / 16), base64_digit((b1 % 16) * 4), '=']
    } else {
        let b0 = bytes[0] as int;
        let b1 = bytes[1] as int;
        let b2 = bytes[2] as int;
        seq![
            base64_digit(b0 / 4),
            base64_digit((b0 % 4) * 16 + b1 / 16),
            base64_digit((b1 % 16) * 4 + b2 / 64),
            base64_digit(b2 % 64),
        ] + spec_base64(bytes.subrange(3, bytes.len() as int))
    }
}

/// The escape sequence that asks the terminal to put `text` on the
/// clipboard (OSC 52): `ESC ] 52 ; c ;`, the text in base64, `BEL`.
pub open spec fn osc52(text: Seq<char>) -> Seq<char> {
    seq!['\u{1b}', ']', '5', '2', ';', 'c', ';'] + spec_base64(vstd::utf8::encode_utf8(text)) + seq!['\u{7}']
}

/// The selection after moving `delta` places among the shown lines.
pub open spec fn selection_moved(app: &App, delta: int) -> usize {
    let f = shown(app);
    f[clamp(current_pos(app) + delta, 0, f.len() - 1)]
}

/// Half a page, at least one row.
pub open spec fn half_page(vh: nat) -> nat {
    if vh / 2 >= 1 {
        vh / 2
    } else {
        1
    }
}

/// Where moving by a page of `delta` rows puts the selection and the view:
/// nowhere when nothing is shown or the shown lines take no rows; otherwise
/// the selection goes to the line at the target row, auto-scroll stops, and
/// the view starts at the target (forward) or ends there (backward), then
/// moves as little as needed to show the selection.
pub open spec fn page_moved(a: &App, b: &App, delta: int, vh: nat, w: nat, forward: bool) -> bool {
    let ps = prefix_sums(row_heights(a, w));
    &&& (shown(a).len() == 0 || ps.last() == 0 ==> b.selected == a.selected && b.scroll_offset
        == a.scroll_offset && b.auto_scroll == a.auto_scroll)
    &&& (shown(a).len() > 0 && ps.last() > 0 ==> ({
        let target = page_target(a, delta, w);
        let np = last_at_or_below(ps, target, ps.len() - 1);
        let sel = shown(a)[np];
        let off = if forward {
            target as usize
        } else {
            to_usize(target - (if vh > 0 { vh - 1 } else { 0 }))
        };
        np < shown(a).len() ==> b.selected == sel && !b.auto_scroll && b.scroll_offset
            == offset_showing_selection(&App { selected: sel, auto_scroll: false, scroll_offset: off, ..*a }, vh, w)
    }))
}

/// Moving by a page depends only on the layout, the selection and the view.
pub proof fn lemma_page_moved_frame(a1: &App, a2: &App, b: &App, delta: int, vh: nat, w: nat, forward: bool)
    requires
        layout_frame(a1, a2),
        a1.selected == a2.selected,
        a1.scroll_offset == a2.scroll_offset,
        a1.auto_scroll == a2.auto_scroll,
        page_moved(a1, b, delta, vh, w, forward),
    ensures
        page_moved(a2, b, delta, vh, w, forward),
{
    lemma_cache_only(a1, a2);
    let ps = prefix_sums(row_heights(a1, w));
    if shown(a1).len() > 0 && ps.last() > 0 {
        let target = page_target(a1, delta, w);
        assert(target == page_target(a2, delta, w));
        let np = last_at_or_below(ps, target, ps.len() - 1);
        let sel = shown(a1)[np];
        let off = if forward {
            target as usize
        } else {
            to_usize(target - (if vh > 0 { vh - 1 } else { 0 }))
        };
        let x1 = App { selected: sel, auto_scroll: false, scroll_offset: off, ..*a1 };
        let x2 = App { selected: sel, auto_scroll: false, scroll_offset: off, ..*a2 };
        lemma_cache_only(&x1, &x2);
        assert(offset_showing_selection(&x1, vh, w) == offset_showing_selection(&x2, vh, w));
    }
}

/// What a key press in the list does (see `App::handle_list_key`).
pub open spec fn list_key_effect(a: &App, b: &App, key: KeyEvent, vh: nat, w: nat, action: AppAction) -> bool {
    let f = shown(a);
    let ctrl = key.modifiers == CONTROL;
    let is = |c: char| key.code == KeyCode::Char(c);
    let down = is('j') || key.code == KeyCode::Down;
    let up = is('k') || key.code == KeyCode::Up;
    let help = ctrl && is('g');
    let open_filter = is('/') && !a.context_mode;
    let open_command = is(':') && !a.context_mode;
    let enter_context = is('c') && !a.context_mode;
    let esc = key.code == KeyCode::Esc;
    let copy = is('y') && !ctrl;
    let moves = down || up || (is('G') && f.len() > 0) || (is('g') && !ctrl && f.len() > 0 && a.pending_g)
        || (ctrl && (is('d') || is('u') || is('f') || is('b') || is('e') || is('y'))) || (is('z')
        && a.pending_z) || (enter_context && a.lines@.len() > 0) || (esc && a.context_mode);
    let expands = (key.code == KeyCode::Enter && f.len() > 0) || (ctrl
        && is('o')) || (enter_context && a.lines@.len() > 0) || (esc && a.context_mode);
    &&& (!moves || ((down || up) && f.len() == 0) ==> b.selected == a.selected && b.scroll_offset
        == a.scroll_offset && b.auto_scroll == a.auto_scroll)
    &&& (!expands ==> b.expanded == a.expanded && b.expand_all == a.expand_all)
    &&& (key.code == KeyCode::Enter ==> b.expand_all == a.expand_all)
    &&& b.lines == a.lines
    &&& b.max_lines == a.max_lines
    &&& b.should_quit == (a.should_quit || (ctrl && is('x')))
    &&& b.pending_g == (is('g') && !ctrl && f.len() > 0 && !a.pending_g)
    &&& b.pending_z == (is('z') && !a.pending_z)
    &&& (help ==> b.show_help && b.help_scroll == 0)
    &&& (!help ==> b.show_help == a.show_help && b.help_scroll == a.help_scroll)
    &&& (open_command ==> (b.command_input matches Some(t) && t@.len() == 0) && b.command_error is None)
    &&& (!open_command ==> b.command_input == a.command_input && b.command_error == a.command_error)
    &&& (open_filter ==> b.filter@ == crate::filter_state::live_updated(crate::filter_state::input_started(a.filter@)))
    &&& (esc && !a.context_mode ==> b.filter@ == (crate::filter_state::FilterStateV { query: None, ..a.filter@ }))
    &&& (!open_filter && !(esc && !a.context_mode) ==> b.filter == a.filter)
    &&& (enter_context && a.lines@.len() > 0 ==> b.context_mode && b.context_center == a.selected)
    &&& (esc && a.context_mode ==> !b.context_mode && b.selected == a.main_selected)
    &&& (!(enter_context && a.lines@.len() > 0) && !(esc && a.context_mode) ==> b.context_mode == a.context_mode)
    &&& (copy ==> (a.selected < a.lines@.len() ==> (action matches AppAction::Copy(t) && t@ == osc52(a.lines@[a.selected as int].text@))))
    &&& (!copy || a.selected >= a.lines@.len() ==> action == AppAction::Nothing)
    &&& (key.code == KeyCode::Enter && f.len() > 0 ==> forall|i: usize| #[trigger] b.expanded@.contains(i)
        == (if i == a.selected { !a.expanded@.contains(i) } else { a.expanded@.contains(i) }))
    &&& (ctrl && is('o') ==> b.expand_all == !a.expand_all && (a.expand_all ==> b.expanded@.is_empty()) && (!a.expand_all ==> forall|i: usize| #[trigger] b.expanded@.contains(i) == (a.expanded@.contains(i) || f.contains(i))))
    &&& (is('G') && f.len() > 0 ==> b.selected == f.last() && b.auto_scroll)
    &&& (is('g') && !ctrl && f.len() > 0 && a.pending_g ==> b.selected == f[0] && !b.auto_scroll && b.scroll_offset == 0)
    &&& (ctrl && is('y') ==> b.scroll_offset == to_usize(a.scroll_offset - 1) && !b.auto_scroll && b.selected == a.selected)
    &&& (ctrl && is('e') ==> b.selected == a.selected && !b.auto_scroll && b.scroll_offset == (if to_usize(a.scroll_offset + 1) < to_usize(prefix_sums(row_heights(a, w)).last() - vh) {
        to_usize(a.scroll_offset + 1)
    } else {
        to_usize(prefix_sums(row_heights(a, w)).last() - vh)
    }))
    &&& (ctrl && is('d') ==> page_moved(a, b, half_page(vh) as int, vh, w, true))
    &&& (ctrl && is('u') ==> page_moved(a, b, -(half_page(vh) as int), vh, w, false))
    &&& (ctrl && is('f') ==> page_moved(a, b, vh as int, vh, w, true))
    &&& (ctrl && is('b') ==> page_moved(a, b, -(vh as int), vh, w, false))
    &&& (is('z') && a.pending_z && !(ctrl && (is('d') || is('u') || is('f') || is('b') || is('e') || is('y') || is('o') || is('g')))
        ==> b.selected == a.selected && b.scroll_offset == centered_offset(a, vh, w))
    &&& ((down || up) && f.len() > 0 ==> match scroll_within(a, down, vh, w) {
        Some(o) => b.scroll_offset == o && b.selected == a.selected && !b.auto_scroll,
        None => b.selected == selection_moved(a, if down { 1 } else { -1 }) && b.auto_scroll == (b.selected == f.last()),
    })
}

/// What a key press on the help screen does: Esc or `^G` closes it, `^X`
/// quits, `j`/Down and `k`/Up scroll it; nothing else changes.
pub open spec fn help_key_effect(a: &App, b: &App, key: KeyEvent) -> bool {
    &&& b.show_help == (a.show_help && !(key.code == KeyCode::Esc || (has_control(key.modifiers) && key.code == KeyCode::Char('g'))))
    &&& b.should_quit == (a.should_quit || (has_control(key.modifiers) && key.code == KeyCode::Char('x')))
    &&& b.help_scroll == (if key.code == KeyCode::Esc || has_control(key.modifiers) && (key.code == KeyCode::Char('g') || key.code == KeyCode::Char('x')) {
        a.help_scroll
    } else if key.code == KeyCode::Char('j') || key.code == KeyCode::Down {
        crate::classic::sat_add16(a.help_scroll, 1)
    } else if key.code == KeyCode::Char('k') || key.code == KeyCode::Up {
        crate::classic::sat_sub16(a.help_scroll, 1)
    } else {
        a.help_scroll
    })
    &&& layout_frame(b, a)
    &&& b.cache == a.cache
    &&& b.selected == a.selected && b.scroll_offset == a.scroll_offset
}

/// The selection brought among the shown lines `f`: past the last one to
/// the last, off the shown set to the first.
pub open spec fn clamped(f: Seq<usize>, sel: usize) -> usize {
    if f.len() == 0 {
        sel
    } else if sel > f.last() {
        f.last()
    } else if !f.contains(sel) {
        f[0]
    } else {
        sel
    }
}

/// What the filter prompt does with `key`: from state `a` to state `b`,
/// answering `r` (recompute, show help, quit).
pub open spec fn filter_handled(a: FilterState, key: KeyEvent, b: FilterState, r: (bool, bool, bool)) -> bool {
    prompt_key_handled(a, key, b, r)
}

/// The shape every reachable state has: what the cache holds is what it
/// stands for, the filter state is well formed, expanded lines exist, and the
/// selection (and, in context mode, the saved one) is on an existing line.
pub open spec fn app_wf(app: &App) -> bool {
    &&& (app.cache.filtered_indices matches Some(v) ==> v@ == shown(app))
    &&& (app.cache.row_layout matches Some((w, h, p)) ==> h@ == row_heights(app, w as nat) && p@
        == prefix_sums(h@))
    &&& state_wf(app.filter@)
    &&& (forall|i: usize| app.expanded@.contains(i) ==> i < app.lines@.len())
    &&& app.lines@.len() < usize::MAX - 1
    &&& selection_on_line(app)
}

/// The selection is on an existing line (or 0 when there are none), and in
/// context mode so is the selection saved from the list view.
pub open spec fn selection_on_line(app: &App) -> bool {
    &&& (app.selected < app.lines@.len() || (app.lines@.len() == 0 && app.selected == 0))
    &&& (app.context_mode ==> app.main_selected < app.lines@.len())
}

impl App {
    /// An empty viewer keeping at most `max_lines` lines.
    pub fn new(max_lines: usize) -> (app: App)
        ensures
            app.lines@.len() == 0,
            app.selected == 0 && app.scroll_offset == 0 && app.auto_scroll,
            app.max_lines == max_lines && !app.should_quit,
            app.expanded@.is_empty() && !app.expand_all,
            !app.process_exited && !app.show_help && app.help_scroll == 0,
            app.recording is None && app.command_input is None && app.command_error is None,
            !app.context_mode && !app.pending_g && !app.pending_z,
            app.filter@.input is None && app.filter@.query is None,
            app_wf(&app),
    {
        App {
            lines: VecDeque::new(),
            selected: 0,
            scroll_offset: 0,
            auto_scroll: true,
            max_lines,
            should_quit: false,
            colors: HighlightColors::default(),
            filter: FilterState::new(),
            cache: RenderCache::new(),
            pending_g: false,
            pending_z: false,
            expanded: HashSet::new(),
            expand_all: false,
            process_exited: false,
            show_help: false,
            help_scroll: 0,
            recording: None,
            command_input: None,
            command_error: None,
            context_mode: false,
            context_center: 0,
            main_selected: 0,
            main_scroll_offset: 0,
            main_auto_scroll: true,
            main_expanded: HashSet::new(),
            main_expand_all: false,
        }
    }

    /// Forgets everything computed.
    pub fn invalidate_caches(&mut self)
        ensures
            final(self).cache.filtered_indices is None && final(self).cache.row_layout is None,
            final(self).lines == old(self).lines,
            final(self).filter == old(self).filter,
            final(self).expanded == old(self).expanded,
    {
        self.cache.invalidate();
    }

    /// Whether line `idx` is expanded.
    pub fn is_expanded(&self, idx: usize) -> (r: bool)
        ensures
            r == expanded_at(self, idx as int),
    {
        self.expand_all || self.expanded.contains(&idx)
    }

    /// The shown indices, computed afresh.
    pub fn compute_filtered_indices(&self) -> (r: Vec<usize>)
        requires
            app_wf(self),
        ensures
            r@ == shown(self),
    {
        let n = self.lines.len();
        let mut out: Vec<usize> = Vec::new();
        let q = if self.context_mode {
            None
        } else {
            self.filter.active_filter_query()
        };
        match q {
            Some(q) if q.segments.len() > 0 => {
                let mut i: usize = 0;
                while i < n
                    invariant
                        n == self.lines@.len(),
                        i <= n,
                        !self.context_mode,
                        active_query(self.filter@) == Some(q@),
                        out@ == passing(line_texts(self.lines@), q@, i as int),
                    decreases n - i,
                {
                    assert(line_texts(self.lines@)[i as int] == self.lines@[i as int].text@);
                    if q.matches(self.lines[i].text.as_str()) {
                        out.push(i);
                    }
                    i = i + 1;
                }
            },
            _ => {
                let mut i: usize = 0;
                while i < n
                    invariant
                        n == self.lines@.len(),
                        i <= n,
                        out@ == all_indices(i as int),
                    decreases n - i,
                {
                    out.push(i);
                    i = i + 1;
                    assert(out@ =~= all_indices(i as int));
                }
                assert(out@ =~= all_indices(n as int));
            },
        }
        out
    }

    /// The shown indices, from the cache when it holds them.
    pub fn filtered_indices(&mut self) -> (r: Vec<usize>)
        requires
            app_wf(old(self)),
        ensures
            r@ == shown(old(self)),
            app_wf(final(self)),
            final(self).cache.row_layout == old(self).cache.row_layout,
            unchanged_but_cache(final(self), old(self)),
    {
        match &self.cache.filtered_indices {
            Some(v) => v.clone(),
            None => {
                let v = self.compute_filtered_indices();
                self.cache.filtered_indices = Some(v.clone());
                proof {
                    lemma_cache_only(self, old(self));
                }
                v
            },
        }
    }

    /// The template of the query in force, if it has one.
    pub fn active_line_format(&self) -> (r: Option<&LineFormatTemplate>)
        ensures
            match line_format(self) {
                Some(parts) => r matches Some(t) && t@ == parts,
                None => r is None,
            },
    {
        self.filter.active_line_format()
    }

    /// The text shown for line `idx`.
    pub fn display_text_for(&self, idx: usize) -> (r: String)
        requires
            idx < self.lines@.len(),
        ensures
            r@ == display_text(self, idx as int),
    {
        let text = &self.lines[idx].text;
        match self.active_line_format() {
            Some(t) => match t.format(text.as_str()) {
                Some(s) => s,
                None => text.clone(),
            },
            None => text.clone(),
        }
    }

    /// Rows left for lines in a screen of `height` rows: the title, status and
    /// two shortcut rows take four, and a prompt one more.
    pub fn visible_height(&self, height: u16) -> (r: usize)
        ensures
            r == (if height as int - (if self.filter.filter_input is Some || self.command_input is Some {
                5int
            } else {
                4int
            }) > 0 {
                height as int - (if self.filter.filter_input is Some || self.command_input is Some {
                    5int
                } else {
                    4int
                })
            } else {
                0
            }),
    {
        let overhead: usize = if self.filter.filter_input.is_some() || self.command_input.is_some() {
            5
        } else {
            4
        };
        (height as usize).saturating_sub(overhead)
    }

    /// The rows line `idx` takes at `width` columns.
    pub fn entry_display_height(&self, idx: usize, width: usize) -> (r: usize)
        requires
            idx < self.lines@.len(),
        ensures
            r == entry_height(self, idx as int, width as nat),
    {
        if !self.is_expanded(idx) {
            return 1;
        }
        let text = highlight_line(self.display_text_for(idx).as_str(), &self.colors);
        wrapped_text_height_capped(&text, width)
    }

    /// Follows the newest shown line while auto-scroll is on: it becomes the
    /// selection and the view scrolls to the end.
    pub fn update_auto_scroll(&mut self, visible_height: usize, content_width: usize)
        requires
            app_wf(old(self)),
        ensures
            app_wf(final(self)),
            ({
                let f = shown(old(self));
                if !old(self).auto_scroll || f.len() == 0 {
                    final(self).selected == old(self).selected && final(self).scroll_offset == old(self).scroll_offset
                } else {
                    final(self).selected == f.last() && final(self).scroll_offset == to_usize(
                        prefix_sums(row_heights(old(self), content_width as nat)).last() - visible_height,
                    )
                }
            }),
            nav_frame(final(self), old(self)),
            final(self).auto_scroll == old(self).auto_scroll,
    {
        if !self.auto_scroll {
            return;
        }
        let filtered = self.filtered_indices();
        let n = filtered.len();
        if n == 0 {
            return;
        }
        let ghost mid = *self;
        self.selected = filtered[n - 1];
        proof {
            lemma_shown_bounds(old(self));
            lemma_wf_nav(self, &mid);
            lemma_cache_only(self, old(self));
        }
        let (_, sums) = self.cached_row_layout(content_width);
        proof {
            lemma_prefix_sums_len(row_heights(old(self), content_width as nat));
        }
        let total = sums[sums.len() - 1];
        let ghost mid2 = *self;
        self.scroll_offset = total.saturating_sub(visible_height);
        proof {
            lemma_wf_nav(self, &mid2);
        }
    }

    /// Scrolls so that the whole selected entry is on screen, as far as it fits.
    #[verifier::spinoff_prover]
    #[verifier::rlimit(60)]
    pub fn ensure_selection_visible(&mut self, visible_height: usize, content_width: usize)
        requires
            app_wf(old(self)),
        ensures
            app_wf(final(self)),
            final(self).scroll_offset == offset_showing_selection(old(self), visible_height as nat, content_width as nat),
            final(self).selected == old(self).selected,
            final(self).auto_scroll == old(self).auto_scroll,
            nav_frame(final(self), old(self)),
    {
        let filtered = self.filtered_indices();
        let pos = match position_in(&filtered, self.selected) {
            Some(p) => p,
            None => {
                return;
            },
        };
        proof {
            lemma_position_of(filtered@, self.selected);
        }
        let ghost s1 = *self;
        proof {
            lemma_cache_only(&s1, old(self));
        }
        let (heights, sums) = self.cached_row_layout(content_width);
        proof {
            lemma_prefix_sums_len(heights@);
        }
        let first = sums[pos];
        let hgt = heights[pos];
        let ghost mid = *self;
        proof {
            lemma_cache_only(&mid, old(self));
        }
        self.scroll_offset = showing_offset(self.scroll_offset, first, hgt, visible_height);
        proof {
            lemma_wf_nav(self, &mid);
            let h = row_heights(old(self), content_width as nat);
            assert(heights@ == h);
            assert(sums@ == prefix_sums(h));
            assert(position_of(shown(old(self)), old(self).selected) == Some(pos as int));
            assert(first == prefix_sums(h)[pos as int]);
            assert(hgt == h[pos as int]);
            assert(mid.scroll_offset == old(self).scroll_offset);
        }
    }

    /// Moves the selection `delta` places among the shown lines and keeps it
    /// on screen; auto-scroll holds exactly when the newest shown line is
    /// selected.
    pub fn move_selection(&mut self, delta: isize, visible_height: usize, content_width: usize)
        requires
            app_wf(old(self)),
        ensures
            app_wf(final(self)),
            nav_frame(final(self), old(self)),
            ({
                let f = shown(old(self));
                if f.len() == 0 {
                    final(self).selected == old(self).selected && final(self).scroll_offset
                        == old(self).scroll_offset && final(self).auto_scroll == old(self).auto_scroll
                } else {
                    let sel = f[clamp(current_pos(old(self)) + delta, 0, f.len() - 1)];
                    &&& final(self).selected == sel
                    &&& final(self).auto_scroll == (sel == f.last())
                    &&& final(self).scroll_offset == offset_showing_selection(
                        &App { selected: sel, auto_scroll: sel == f.last(), ..*old(self) },
                        visible_height as nat,
                        content_width as nat,
                    )
                }
            }),
    {
        let filtered = self.filtered_indices();
        let n = filtered.len();
        if n == 0 {
            return;
        }
        let cur = match position_in(&filtered, self.selected) {
            Some(p) => p,
            None => 0,
        };
        proof {
            lemma_position_of(filtered@, self.selected);
        }
        let target: i128 = cur as i128 + delta as i128;
        let np: usize = if target <= 0 {
            0
        } else if target >= (n - 1) as i128 {
            n - 1
        } else {
            target as usize
        };
        let ghost mid = *self;
        self.selected = filtered[np];
        self.auto_scroll = self.selected == filtered[n - 1];
        proof {
            lemma_shown_bounds(old(self));
            lemma_wf_nav(self, &mid);
            lemma_cache_only(self, old(self));
            lemma_cache_only(&App { selected: self.selected, auto_scroll: self.auto_scroll, ..*old(self) }, self);
        }
        self.ensure_selection_visible(visible_height, content_width);
    }

    /// Scrolls one row within the selected expanded entry when it is taller
    /// than the screen; whether it scrolled.
    #[verifier::spinoff_prover]
    #[verifier::rlimit(60)]
    pub fn try_scroll_expanded(&mut self, forward: bool, visible_height: usize, content_width: usize) -> (r: bool)
        requires
            app_wf(old(self)),
        ensures
            app_wf(final(self)),
            nav_frame(final(self), old(self)),
            final(self).selected == old(self).selected,
            r == (scroll_within(old(self), forward, visible_height as nat, content_width as nat) is Some),
            match scroll_within(old(self), forward, visible_height as nat, content_width as nat) {
                Some(o) => final(self).scroll_offset == o && !final(self).auto_scroll,
                None => final(self).scroll_offset == old(self).scroll_offset && final(self).auto_scroll
                    == old(self).auto_scroll,
            },
    {
        if !self.is_expanded(self.selected) {
            return false;
        }
        let filtered = self.filtered_indices();
        let pos = match position_in(&filtered, self.selected) {
            Some(p) => p,
            None => {
                return false;
            },
        };
        proof {
            lemma_position_of(filtered@, self.selected);
        }
        let ghost s1 = *self;
        proof {
            lemma_cache_only(&s1, old(self));
        }
        let (heights, sums) = self.cached_row_layout(content_width);
        proof {
            lemma_prefix_sums_len(heights@);
        }
        let first = sums[pos];
        let hgt = heights[pos];
        proof {
            let h = row_heights(old(self), content_width as nat);
            assert(heights@ == h);
            assert(sums@ == prefix_sums(h));
            assert(position_of(shown(old(self)), old(self).selected) == Some(pos as int));
            assert(first == prefix_sums(h)[pos as int]);
            assert(hgt == h[pos as int]);
        }
        proof {
            lemma_scroll_within_unfold(old(self), forward, visible_height as nat, content_width as nat, pos as int);
        }
        if hgt <= visible_height {
            return false;
        }
        let ghost mid = *self;
        if forward {
            if (self.scroll_offset as u128) + (visible_height as u128) < (first as u128) + (hgt as u128) {
                self.scroll_offset = self.scroll_offset.saturating_add(1);
                self.auto_scroll = false;
                proof {
                    lemma_wf_nav(self, &mid);
                    assert(mid.scroll_offset == old(self).scroll_offset);
                    assert(self.scroll_offset == to_usize(old(self).scroll_offset + 1));
                    lemma_scroll_within_unfold(old(self), forward, visible_height as nat, content_width as nat, pos as int);
                }
                return true;
            }
        } else if self.scroll_offset > first {
            self.scroll_offset = self.scroll_offset - 1;
            self.auto_scroll = false;
            proof {
                lemma_wf_nav(self, &mid);
                lemma_scroll_within_unfold(old(self), forward, visible_height as nat, content_width as nat, pos as int);
            }
            return true;
        }
        false
    }

    /// Moves by `delta_rows` screen rows: the selection goes to the entry on
    /// the target row, and the view puts that row at the top (moving forward)
    /// or at the bottom (moving back).
    pub fn page_move(&mut self, delta_rows: isize, visible_height: usize, content_width: usize, forward: bool)
        requires
            app_wf(old(self)),
        ensures
            app_wf(final(self)),
            nav_frame(final(self), old(self)),
            page_moved(old(self), final(self), delta_rows as int, visible_height as nat, content_width as nat, forward),
    {
        self.page_move_rows(delta_rows, visible_height, content_width, forward);
    }

    /// The work of `page_move`.
    #[verifier::spinoff_prover]
    #[verifier::rlimit(80)]
    fn page_move_rows(&mut self, delta_rows: isize, visible_height: usize, content_width: usize, forward: bool)
        requires
            app_wf(old(self)),
        ensures
            app_wf(final(self)),
            nav_frame(final(self), old(self)),
            shown(old(self)).len() == 0 || prefix_sums(row_heights(old(self), content_width as nat)).last() == 0
                ==> final(self).selected == old(self).selected && final(self).scroll_offset
                == old(self).scroll_offset && final(self).auto_scroll == old(self).auto_scroll,
            shown(old(self)).len() > 0 && prefix_sums(row_heights(old(self), content_width as nat)).last() > 0
                ==> ({
                let ps = prefix_sums(row_heights(old(self), content_width as nat));
                let target = page_target(old(self), delta_rows as int, content_width as nat);
                let np = last_at_or_below(ps, target, ps.len() - 1);
                let sel = shown(old(self))[np];
                let off = if forward {
                    target as usize
                } else {
                    to_usize(target - (if visible_height > 0 { visible_height - 1 } else { 0 }))
                };
                np < shown(old(self)).len() ==> final(self).selected == sel && !final(self).auto_scroll
                    && final(self).scroll_offset == offset_showing_selection(
                    &App { selected: sel, auto_scroll: false, scroll_offset: off, ..*old(self) },
                    visible_height as nat,
                    content_width as nat,
                )
            }),
    {
        let filtered = self.filtered_indices();
        let n = filtered.len();
        if n == 0 {
            return;
        }
        let cur = match position_in(&filtered, self.selected) {
            Some(p) => p,
            None => 0,
        };
        proof {
            lemma_position_of(filtered@, self.selected);
        }
        let ghost s1 = *self;
        proof {
            lemma_cache_only(&s1, old(self));
            lemma_shown_bounds(old(self));
        }
        let (heights, sums) = self.cached_row_layout(content_width);
        proof {
            lemma_prefix_sums_len(heights@);
            lemma_prefix_sums_mono(heights@);
        }
        let current_row = sums[cur];
        let total = sums[sums.len() - 1];
        if total == 0 {
            return;
        }
        let target: usize = if delta_rows >= 0 {
            let d = delta_rows as usize;
            if d >= total - 1 || current_row >= total - 1 - d {
                total - 1
            } else {
                current_row + d
            }
        } else {
            let d: usize = if delta_rows == isize::MIN {
                (isize::MAX as usize) + 1
            } else {
                (-delta_rows) as usize
            };
            if d >= current_row {
                0
            } else {
                current_row - d
            }
        };
        assert(target == page_target(old(self), delta_rows as int, content_width as nat));
        let np = last_index_at_or_below(&sums, target, sums.len() - 1);
        if np < n {
            let ghost mid = *self;
            self.selected = filtered[np];
            self.auto_scroll = false;
            if forward {
                self.scroll_offset = target;
            } else {
                self.scroll_offset = target.saturating_sub(visible_height.saturating_sub(1));
            }
            let ghost x = App { selected: self.selected, auto_scroll: false, scroll_offset: self.scroll_offset, ..*old(self) };
            proof {
                lemma_wf_nav(self, &mid);
                lemma_cache_only(self, old(self));
                lemma_cache_only(self, &x);
                assert(offset_showing_selection(self, visible_height as nat, content_width as nat)
                    == offset_showing_selection(&x, visible_height as nat, content_width as nat));
                assert(filtered@ == shown(old(self)));
                assert(sums@ == prefix_sums(row_heights(old(self), content_width as nat)));
                assert(self.selected == shown(old(self))[np as int]);
            }
            self.ensure_selection_visible(visible_height, content_width);
        }
    }

    /// Adds a line from standard output.
    pub fn add_line(&mut self, line: String)
        requires
            app_wf(old(self)),
            old(self).lines@.len() < usize::MAX - 2,
        ensures
            app_wf(final(self)),
            line_texts(final(self).lines@) == (if old(self).lines@.len() + 1 > old(self).max_lines {
                line_texts(old(self).lines@).push(line@).drop_first()
            } else {
                line_texts(old(self).lines@).push(line@)
            }),
            final(self).lines@.len() > 0 ==> final(self).lines@.last().source == LineSource::Stdout
                && crate::clock::timestamp_shape(final(self).lines@.last().timestamp@),
            final(self).process_exited == old(self).process_exited,
            final(self).selected == (if old(self).lines@.len() + 1 > old(self).max_lines
                && old(self).selected > 0 {
                (old(self).selected - 1) as usize
            } else {
                old(self).selected
            }),
            old(self).lines@.len() + 1 > old(self).max_lines ==> forall|j: usize| #[trigger] final(self).expanded@.contains(j)
                <==> j + 1 <= usize::MAX && old(self).expanded@.contains((j + 1) as usize),
            old(self).lines@.len() + 1 <= old(self).max_lines ==> final(self).expanded == old(self).expanded,
            final(self).cache.row_layout is None,
            final(self).scroll_offset == old(self).scroll_offset,
            final(self).auto_scroll == old(self).auto_scroll,
            final(self).filter == old(self).filter,
            final(self).context_mode == old(self).context_mode,
            final(self).max_lines == old(self).max_lines,
            old(self).lines@.len() <= old(self).max_lines ==> final(self).lines@.len() <= final(self).max_lines,
            old(self).max_lines > 0 ==> final(self).lines@.len() > 0 && final(self).lines@.last().text@ == line@,
    {
        self.add_line_with_source(line, LineSource::Stdout);
    }

    /// Adds a line from `source`, stamped with the current time. Past
    /// `max_lines` the oldest line goes, so no more than `max_lines` lines
    /// are ever kept; the selection and the expanded lines follow their
    /// lines, and a message of the viewer saying that the process exited is
    /// noted.
    pub fn add_line_with_source(&mut self, line: String, source: LineSource)
        requires
            app_wf(old(self)),
            old(self).lines@.len() < usize::MAX - 2,
        ensures
            app_wf(final(self)),
            line_texts(final(self).lines@) == (if old(self).lines@.len() + 1 > old(self).max_lines {
                line_texts(old(self).lines@).push(line@).drop_first()
            } else {
                line_texts(old(self).lines@).push(line@)
            }),
            final(self).lines@.len() > 0 ==> final(self).lines@.last().source == source
                && crate::clock::timestamp_shape(final(self).lines@.last().timestamp@),
            final(self).process_exited == (old(self).process_exited || (source == LineSource::System
                && crate::text::seq_contains(line@, exit_marker()))),
            final(self).selected == (if old(self).lines@.len() + 1 > old(self).max_lines
                && old(self).selected > 0 {
                (old(self).selected - 1) as usize
            } else {
                old(self).selected
            }),
            old(self).lines@.len() + 1 > old(self).max_lines ==> forall|j: usize| #[trigger] final(self).expanded@.contains(j)
                <==> j + 1 <= usize::MAX && old(self).expanded@.contains((j + 1) as usize),
            old(self).lines@.len() + 1 <= old(self).max_lines ==> final(self).expanded == old(self).expanded,
            final(self).cache.row_layout is None,
            final(self).scroll_offset == old(self).scroll_offset,
            final(self).auto_scroll == old(self).auto_scroll,
            final(self).filter == old(self).filter,
            final(self).context_mode == old(self).context_mode,
            final(self).max_lines == old(self).max_lines,
            old(self).lines@.len() <= old(self).max_lines ==> final(self).lines@.len() <= final(self).max_lines,
            old(self).max_lines > 0 ==> final(self).lines@.len() > 0 && final(self).lines@.last().text@ == line@,
    {
        let ghost l = line@;
        self.push_line(line, source);
        proof {
            lemma_line_limit(old(self).lines@, self.lines@, l, self.max_lines);
        }
    }

    /// The work of `add_line_with_source`.
    fn push_line(&mut self, line: String, source: LineSource)
        requires
            app_wf(old(self)),
            old(self).lines@.len() < usize::MAX - 2,
        ensures
            app_wf(final(self)),
            line_texts(final(self).lines@) == (if old(self).lines@.len() + 1 > old(self).max_lines {
                line_texts(old(self).lines@).push(line@).drop_first()
            } else {
                line_texts(old(self).lines@).push(line@)
            }),
            final(self).lines@.len() > 0 ==> final(self).lines@.last().source == source
                && crate::clock::timestamp_shape(final(self).lines@.last().timestamp@),
            final(self).process_exited == (old(self).process_exited || (source == LineSource::System
                && crate::text::seq_contains(line@, exit_marker()))),
            final(self).selected == (if old(self).lines@.len() + 1 > old(self).max_lines
                && old(self).selected > 0 {
                (old(self).selected - 1) as usize
            } else {
                old(self).selected
            }),
            old(self).lines@.len() + 1 > old(self).max_lines ==> forall|j: usize| #[trigger] final(self).expanded@.contains(j)
                <==> j + 1 <= usize::MAX && old(self).expanded@.contains((j + 1) as usize),
            old(self).lines@.len() + 1 <= old(self).max_lines ==> final(self).expanded == old(self).expanded,
            final(self).cache.row_layout is None,
            final(self).scroll_offset == old(self).scroll_offset,
            final(self).auto_scroll == old(self).auto_scroll,
            final(self).filter == old(self).filter,
            final(self).context_mode == old(self).context_mode,
            final(self).max_lines == old(self).max_lines,
    {
        let marker = ['p', 'r', 'o', 'c', 'e', 's', 's', ' ', 'e', 'x', 'i', 't', 'e', 'd'];
        assert(marker@ == exit_marker());
        let mut exited = false;
        if source == LineSource::System {
            let lc = crate::text::chars_of(line.as_str());
            if crate::text::contains_chars(lc.as_slice(), &marker) {
                exited = true;
            }
        }
        let shows = self.context_mode || self.filter.line_matches_filter(line.as_str());
        assert(shows == shows_new(old(self), line@));
        let timestamp = crate::clock::local_timestamp();
        self.store_line(LogEntry { text: line, timestamp, source }, shows);
        if exited {
            self.process_exited = true;
        }
    }

    /// Appends `entry`, which the shown lines take in exactly when `shows`,
    /// dropping the oldest line past the limit and keeping the caches,
    /// selection and expanded set in step.
    #[verifier::spinoff_prover]
    #[verifier::rlimit(100)]
    fn store_line(&mut self, entry: LogEntry, shows: bool)
        requires
            app_wf(old(self)),
            old(self).lines@.len() < usize::MAX - 2,
            shows == shows_new(old(self), entry.text@),
        ensures
            app_wf(final(self)),
            line_texts(final(self).lines@) == (if old(self).lines@.len() + 1 > old(self).max_lines {
                line_texts(old(self).lines@).push(entry.text@).drop_first()
            } else {
                line_texts(old(self).lines@).push(entry.text@)
            }),
            final(self).lines@.len() > 0 ==> final(self).lines@.last() == entry,
            final(self).process_exited == old(self).process_exited,
            final(self).selected == (if old(self).lines@.len() + 1 > old(self).max_lines
                && old(self).selected > 0 {
                (old(self).selected - 1) as usize
            } else {
                old(self).selected
            }),
            old(self).lines@.len() + 1 > old(self).max_lines ==> forall|j: usize| #[trigger] final(self).expanded@.contains(j)
                <==> j + 1 <= usize::MAX && old(self).expanded@.contains((j + 1) as usize),
            old(self).lines@.len() + 1 <= old(self).max_lines ==> final(self).expanded == old(self).expanded,
            final(self).cache.row_layout is None,
            final(self).scroll_offset == old(self).scroll_offset,
            final(self).auto_scroll == old(self).auto_scroll,
            final(self).filter == old(self).filter,
            final(self).context_mode == old(self).context_mode,
            final(self).max_lines == old(self).max_lines,
    {
        let ghost line = entry.text@;
        let n = self.lines.len();
        let ghost t0 = line_texts(self.lines@);
        let ghost f0 = shown(self);
        proof {
            lemma_shown_bounds(self);
        }
        let cached = self.cache.filtered_indices.take();
        self.cache.row_layout = None;
        self.lines.push_back(entry);
        let ghost t1 = line_texts(self.lines@);
        assert(t1 =~= t0.push(line));
        if self.lines.len() > self.max_lines {
            self.lines.pop_front();
            let ghost t2 = line_texts(self.lines@);
            assert(t2 =~= t1.subrange(1, t1.len() as int));
            let new_cache = match cached {
                Some(v) => {
                    let mut w = shift_indices(v);
                    if shows && n > 0 {
                        w.push(n - 1);
                    }
                    Some(w)
                },
                None => None,
            };
            self.cache.filtered_indices = new_cache;
            if self.selected > 0 {
                self.selected = self.selected - 1;
            }
            let ex = shifted_set(&self.expanded, n);
            self.expanded = ex;
            proof {
                lemma_shown_drop(self, old(self), line);
                assert(self.cache.filtered_indices matches Some(v) ==> v@ == shown(self));
                assert forall|i: usize| self.expanded@.contains(i) implies i < self.lines@.len() by {
                    assert(old(self).expanded@.contains((i + 1) as usize));
                }
            }
        } else {
            let new_cache = match cached {
                Some(v) => {
                    let mut w = v;
                    if shows {
                        w.push(n);
                    }
                    Some(w)
                },
                None => None,
            };
            self.cache.filtered_indices = new_cache;
            proof {
                lemma_shown_push(self, old(self), line);
                assert(self.cache.filtered_indices matches Some(v) ==> v@ == shown(self));
            }
        }
    }

    /// Scrolls so that the selected entry sits in the middle of the screen.
    #[verifier::spinoff_prover]
    #[verifier::rlimit(60)]
    pub fn center_selection(&mut self, visible_height: usize, content_width: usize)
        requires
            app_wf(old(self)),
        ensures
            app_wf(final(self)),
            nav_frame(final(self), old(self)),
            final(self).selected == old(self).selected,
            final(self).auto_scroll == old(self).auto_scroll,
            final(self).scroll_offset == centered_offset(old(self), visible_height as nat, content_width as nat),
    {
        let filtered = self.filtered_indices();
        let pos = match position_in(&filtered, self.selected) {
            Some(p) => p,
            None => {
                return;
            },
        };
        proof {
            lemma_position_of(filtered@, self.selected);
        }
        let ghost s1 = *self;
        proof {
            lemma_cache_only(&s1, old(self));
        }
        let (heights, sums) = self.cached_row_layout(content_width);
        proof {
            lemma_prefix_sums_len(heights@);
        }
        let first = sums[pos];
        let hgt = heights[pos];
        let free = visible_height.saturating_sub(hgt);
        let ghost mid = *self;
        self.scroll_offset = first.saturating_sub(free / 2);
        proof {
            lemma_wf_nav(self, &mid);
            let h = row_heights(old(self), content_width as nat);
            assert(heights@ == h);
            assert(position_of(shown(old(self)), old(self).selected) == Some(pos as int));
        }
    }

    /// Shows every line around the selected one, keeping the filtered view's
    /// selection, scroll position and expansion to come back to.
    pub fn enter_context_mode(&mut self, visible_height: usize, content_width: usize)
        requires
            app_wf(old(self)),
        ensures
            app_wf(final(self)),
            context_entered(old(self), final(self)),
    {
        if self.context_mode || self.lines.len() == 0 {
            return;
        }
        self.main_selected = self.selected;
        self.main_scroll_offset = self.scroll_offset;
        self.main_auto_scroll = self.auto_scroll;
        let mut taken: HashSet<usize> = HashSet::new();
        std::mem::swap(&mut taken, &mut self.expanded);
        self.main_expanded = taken;
        self.main_expand_all = self.expand_all;
        self.context_mode = true;
        self.context_center = self.selected;
        self.auto_scroll = false;
        self.expand_all = false;
        self.cache.invalidate();
        self.center_selection(visible_height, content_width);
    }

    /// Back to the filtered view as it was left; expanded lines that no
    /// longer exist are dropped.
    pub fn exit_context_mode(&mut self)
        requires
            app_wf(old(self)),
        ensures
            app_wf(final(self)),
            context_exited(old(self), final(self)),
    {
        if !self.context_mode {
            return;
        }
        self.context_mode = false;
        self.selected = self.main_selected;
        self.scroll_offset = self.main_scroll_offset;
        self.auto_scroll = self.main_auto_scroll;
        let n = self.lines.len();
        let mut kept: HashSet<usize> = HashSet::new();
        let mut k: usize = 0;
        while k < n
            invariant
                k <= n,
                forall|i: usize| kept@.contains(i) <==> i < k && self.main_expanded@.contains(i),
            decreases n - k,
        {
            if self.main_expanded.contains(&k) {
                kept.insert(k);
            }
            k = k + 1;
        }
        self.expanded = kept;
        self.main_expanded = HashSet::new();
        self.expand_all = self.main_expand_all;
        self.cache.invalidate();
    }

    /// Handles a key press in the list. What each key does:
    /// `^X` quits; `j`/Down and `k`/Up scroll within a tall expanded entry or
    /// else move the selection; `G` selects the newest shown line and follows
    /// it; `^G` opens the help; `gg` selects the first shown line; `^D`/`^U`
    /// and `^F`/`^B` move by half and whole pages; `^E`/`^Y` scroll by one row;
    /// Enter expands or collapses the selected line and `^O` all lines; `/`
    /// opens the filter prompt and `:` the command prompt; `c` shows the
    /// selection in context and Esc leaves the context or clears the filter;
    /// `y` copies the selected line; `zz` centers the selection.
    pub fn handle_list_key(&mut self, code: KeyCode, modifiers: u8, visible_height: usize, content_width: usize) -> (action: AppAction)
        requires
            app_wf(old(self)),
            visible_height <= isize::MAX,
        ensures
            app_wf(final(self)),
            list_key_effect(old(self), final(self), KeyEvent { code, modifiers, kind: KeyKind::Press }, visible_height as nat, content_width as nat, action),
    {
        self.list_key(KeyEvent::new(code, modifiers), visible_height, content_width)
    }

    /// The work of `handle_list_key`, for a key event.
    #[verifier::spinoff_prover]
    #[verifier::rlimit(100)]
    pub(crate) fn list_key(&mut self, key: KeyEvent, visible_height: usize, content_width: usize) -> (action: AppAction)
        requires
            app_wf(old(self)),
            visible_height <= isize::MAX,
        ensures
            app_wf(final(self)),
            list_key_effect(old(self), final(self), key, visible_height as nat, content_width as nat, action),
    {
        let filtered = self.filtered_indices();
        let n = filtered.len();
        let exact_ctrl = key.modifiers == CONTROL;
        let prev_g = self.pending_g;
        let prev_z = self.pending_z;
        let ghost s0 = *self;
        self.pending_g = false;
        self.pending_z = false;
        proof {
            lemma_wf_nav(self, &s0);
            lemma_cache_only(self, old(self));
        }
        let half: usize = if visible_height / 2 >= 1 {
            visible_height / 2
        } else {
            1
        };
        let ghost s1 = *self;
        let mut action = AppAction::Nothing;
        match key.code {
            KeyCode::Char(c) => {
                if exact_ctrl && c == 'x' {
                    self.should_quit = true;
                } else if c == 'j' {
                    self.step_or_scroll(true, visible_height, content_width);
                } else if c == 'k' {
                    self.step_or_scroll(false, visible_height, content_width);
                } else if c == 'G' && n > 0 {
                    proof {
                        lemma_shown_bounds(old(self));
                    }
                    self.jump_to(filtered[n - 1], true, visible_height, content_width);
                } else if exact_ctrl && c == 'g' {
                    self.help_scroll = 0;
                    self.show_help = true;
                } else if c == 'g' && n > 0 {
                    if prev_g {
                        let ghost m = *self;
                        self.selected = filtered[0];
                        self.auto_scroll = false;
                        self.scroll_offset = 0;
                        proof {
                            lemma_shown_bounds(old(self));
                            lemma_wf_nav(self, &m);
                        }
                    } else {
                        self.pending_g = true;
                    }
                } else if exact_ctrl && c == 'd' {
                    self.page_move(half as isize, visible_height, content_width, true);
                    proof {
                        lemma_page_moved_frame(&s1, old(self), self, (half as isize) as int, visible_height as nat, content_width as nat, true);
                    }
                } else if exact_ctrl && c == 'u' {
                    self.page_move(-(half as isize), visible_height, content_width, false);
                    proof {
                        lemma_page_moved_frame(&s1, old(self), self, (-(half as isize)) as int, visible_height as nat, content_width as nat, false);
                    }
                } else if exact_ctrl && c == 'f' {
                    self.page_move(visible_height as isize, visible_height, content_width, true);
                    proof {
                        lemma_page_moved_frame(&s1, old(self), self, (visible_height as isize) as int, visible_height as nat, content_width as nat, true);
                    }
                } else if exact_ctrl && c == 'b' {
                    self.page_move(-(visible_height as isize), visible_height, content_width, false);
                    proof {
                        lemma_page_moved_frame(&s1, old(self), self, (-(visible_height as isize)) as int, visible_height as nat, content_width as nat, false);
                    }
                } else if exact_ctrl && c == 'e' {
                    self.scroll_row_down(visible_height, content_width);
                } else if exact_ctrl && c == 'y' {
                    let ghost m = *self;
                    self.scroll_offset = self.scroll_offset.saturating_sub(1);
                    self.auto_scroll = false;
                    proof {
                        lemma_wf_nav(self, &m);
                    }
                } else if exact_ctrl && c == 'o' {
                    self.toggle_expand_all(&filtered);
                } else if c == '/' && !self.context_mode {
                    self.open_filter_prompt();
                } else if c == ':' && !self.context_mode {
                    self.command_input = Some(TextInput::new(String::new()));
                    self.command_error = None;
                } else if c == 'c' && !self.context_mode {
                    self.enter_context_mode(visible_height, content_width);
                } else if c == 'y' {
                    action = self.yank_selected();
                } else if c == 'z' {
                    if prev_z {
                        self.center_selection(visible_height, content_width);
                        proof {
                            lemma_cache_only(&s1, old(self));
                            assert(centered_offset(&s1, visible_height as nat, content_width as nat)
                                == centered_offset(old(self), visible_height as nat, content_width as nat));
                        }
                    } else {
                        self.pending_z = true;
                    }
                }
            },
            KeyCode::Down => {
                self.step_or_scroll(true, visible_height, content_width);
            },
            KeyCode::Up => {
                self.step_or_scroll(false, visible_height, content_width);
            },
            KeyCode::Enter => {
                if n > 0 {
                    proof {
                        lemma_shown_bounds(old(self));
                    }
                    self.toggle_expanded_selected();
                }
            },
            KeyCode::Esc => {
                if self.context_mode {
                    self.exit_context_mode();
                } else {
                    self.filter.filter_query = None;
                    self.cache.invalidate();
                }
            },
            _ => {},
        }
        proof {
            lemma_cache_only(&s1, old(self));
            if layout_frame(self, &s1) && self.cache == s1.cache {
                lemma_wf_nav(self, &s1);
            }
        }
        action
    }

    /// Scrolls within a tall expanded selected entry, or else moves the
    /// selection one place (`down` or up).
    fn step_or_scroll(&mut self, down: bool, visible_height: usize, content_width: usize)
        requires
            app_wf(old(self)),
        ensures
            app_wf(final(self)),
            nav_frame(final(self), old(self)),
            shown(old(self)).len() == 0 ==> final(self).selected == old(self).selected
                && final(self).scroll_offset == old(self).scroll_offset && final(self).auto_scroll
                == old(self).auto_scroll,
            shown(old(self)).len() > 0 ==> match scroll_within(old(self), down, visible_height as nat, content_width as nat) {
                Some(o) => final(self).scroll_offset == o && final(self).selected == old(self).selected && !final(self).auto_scroll,
                None => final(self).selected == selection_moved(old(self), if down { 1 } else { -1 })
                    && final(self).auto_scroll == (final(self).selected == shown(old(self)).last()),
            },
    {
        let ghost s0 = *self;
        if !self.try_scroll_expanded(down, visible_height, content_width) {
            proof {
                lemma_cache_only(self, &s0);
            }
            self.move_selection(if down { 1 } else { -1 }, visible_height, content_width);
        }
    }

    /// Selects line `idx`, sets auto-scroll as given, and keeps it on screen.
    fn jump_to(&mut self, idx: usize, follow: bool, visible_height: usize, content_width: usize)
        requires
            app_wf(old(self)),
            idx < old(self).lines@.len(),
        ensures
            app_wf(final(self)),
            nav_frame(final(self), old(self)),
            final(self).selected == idx,
            final(self).auto_scroll == follow,
    {
        let ghost m = *self;
        self.selected = idx;
        self.auto_scroll = follow;
        proof {
            lemma_wf_nav(self, &m);
        }
        self.ensure_selection_visible(visible_height, content_width);
    }

    /// Scrolls one row down, no further than the last screenful.
    fn scroll_row_down(&mut self, visible_height: usize, content_width: usize)
        requires
            app_wf(old(self)),
        ensures
            app_wf(final(self)),
            nav_frame(final(self), old(self)),
            final(self).selected == old(self).selected,
            !final(self).auto_scroll,
            final(self).scroll_offset == (if to_usize(old(self).scroll_offset + 1) < to_usize(prefix_sums(row_heights(old(self), content_width as nat)).last() - visible_height) {
                to_usize(old(self).scroll_offset + 1)
            } else {
                to_usize(prefix_sums(row_heights(old(self), content_width as nat)).last() - visible_height)
            }),
    {
        let (heights, sums) = self.cached_row_layout(content_width);
        proof {
            lemma_prefix_sums_len(heights@);
        }
        let total = sums[sums.len() - 1];
        let max_offset = total.saturating_sub(visible_height);
        let next = self.scroll_offset.saturating_add(1);
        let ghost m = *self;
        self.scroll_offset = if next < max_offset {
            next
        } else {
            max_offset
        };
        self.auto_scroll = false;
        proof {
            lemma_wf_nav(self, &m);
        }
    }

    /// Expands every shown line, or collapses all when all are expanded.
    fn toggle_expand_all(&mut self, filtered: &Vec<usize>)
        requires
            app_wf(old(self)),
            filtered@ == shown(old(self)),
        ensures
            app_wf(final(self)),
            final(self).expand_all == !old(self).expand_all,
            old(self).expand_all ==> final(self).expanded@.is_empty(),
            !old(self).expand_all ==> forall|i: usize| #[trigger] final(self).expanded@.contains(i)
                == (old(self).expanded@.contains(i) || shown(old(self)).contains(i)),
            final(self).lines == old(self).lines && final(self).filter == old(self).filter,
            final(self).context_mode == old(self).context_mode,
            final(self).selected == old(self).selected,
            nav_state_same(final(self), old(self)),
    {
        proof {
            lemma_shown_bounds(old(self));
        }
        if self.expand_all {
            self.expand_all = false;
            self.expanded = HashSet::new();
        } else {
            self.expand_all = true;
            let n = filtered.len();
            let mut ex: HashSet<usize> = HashSet::new();
            std::mem::swap(&mut ex, &mut self.expanded);
            let mut k: usize = 0;
            while k < n
                invariant
                    k <= n == filtered@.len(),
                    forall|i: usize| #[trigger] ex@.contains(i) <==> (old(self).expanded@.contains(i)
                        || exists|j: int| 0 <= j < k && filtered@[j] == i),
                decreases n - k,
            {
                ex.insert(filtered[k]);
                k = k + 1;
            }
            self.expanded = ex;
            proof {
                assert forall|i: usize| #[trigger] self.expanded@.contains(i) implies i < self.lines@.len() by {
                    if !old(self).expanded@.contains(i) {
                        let j = choose|j: int| 0 <= j < n && filtered@[j] == i;
                        assert(shown(old(self))[j] < old(self).lines@.len());
                    }
                }
                assert forall|i: usize| #[trigger] self.expanded@.contains(i) == (old(self).expanded@.contains(i) || shown(old(self)).contains(i)) by {
                    if shown(old(self)).contains(i) {
                        let j = choose|j: int| 0 <= j < shown(old(self)).len() && shown(old(self))[j] == i;
                        assert(filtered@[j] == i);
                    }
                }
            }
        }
        self.cache.invalidate();
    }

    /// Expands the selected line, or collapses it.
    fn toggle_expanded_selected(&mut self)
        requires
            app_wf(old(self)),
            old(self).selected < old(self).lines@.len(),
        ensures
            app_wf(final(self)),
            forall|i: usize| #[trigger] final(self).expanded@.contains(i) == (if i == old(self).selected {
                !old(self).expanded@.contains(i)
            } else {
                old(self).expanded@.contains(i)
            }),
            final(self).lines == old(self).lines && final(self).filter == old(self).filter,
            final(self).context_mode == old(self).context_mode,
            final(self).expand_all == old(self).expand_all,
            final(self).selected == old(self).selected,
            nav_state_same(final(self), old(self)),
    {
        let sel = self.selected;
        if self.expanded.contains(&sel) {
            self.expanded.remove(&sel);
        } else {
            self.expanded.insert(sel);
        }
        self.cache.invalidate();
    }

    /// Opens the filter prompt on the applied query.
    fn open_filter_prompt(&mut self)
        requires
            app_wf(old(self)),
        ensures
            app_wf(final(self)),
            final(self).filter@ == crate::filter_state::live_updated(crate::filter_state::input_started(old(self).filter@)),
            final(self).lines == old(self).lines,
            final(self).context_mode == old(self).context_mode,
            final(self).expanded == old(self).expanded && final(self).expand_all == old(self).expand_all,
            final(self).selected == old(self).selected,
            nav_state_same(final(self), old(self)),
    {
        self.filter.start_filter_input();
        self.filter.update_live_filter();
        self.cache.invalidate();
    }

    /// The request to copy the selected line, if there is one.
    pub fn yank_selected(&self) -> (action: AppAction)
        ensures
            self.selected < self.lines@.len() ==> (action matches AppAction::Copy(t) && t@ == osc52(
                self.lines@[self.selected as int].text@,
            )),
            self.selected >= self.lines@.len() ==> action == AppAction::Nothing,
    {
        if self.selected >= self.lines.len() {
            return AppAction::Nothing;
        }
        let seq = osc52_sequence(self.lines[self.selected].text.as_str());
        AppAction::Copy(seq)
    }

    /// Handles a key press on the help screen: Esc or `^G` closes it, `^X`
    /// quits, `j`/Down and `k`/Up scroll it.
    pub fn handle_help_key(&mut self, key: KeyEvent)
        requires
            app_wf(old(self)),
        ensures
            app_wf(final(self)),
            help_key_effect(old(self), final(self), key),
    {
        let ctrl = key.ctrl();
        let ghost s0 = *self;
        match key.code {
            KeyCode::Esc => {
                self.show_help = false;
            },
            KeyCode::Char('g') if ctrl => {
                self.show_help = false;
            },
            KeyCode::Char('x') if ctrl => {
                self.should_quit = true;
            },
            KeyCode::Char('j') | KeyCode::Down => {
                self.help_scroll = self.help_scroll.saturating_add(1);
            },
            KeyCode::Char('k') | KeyCode::Up => {
                self.help_scroll = self.help_scroll.saturating_sub(1);
            },
            _ => {},
        }
        proof {
            lemma_wf_nav(self, &s0);
        }
    }

    /// `^X`: asks the viewer to quit.
    pub fn handle_ctrl_x(&mut self)
        requires
            app_wf(old(self)),
        ensures
            app_wf(final(self)),
            final(self).should_quit,
            *final(self) == (App { should_quit: true, ..*old(self) }),
    {
        let ghost s0 = *self;
        self.should_quit = true;
        proof {
            lemma_wf_nav(self, &s0);
        }
    }

    /// Brings the selection among the shown lines: past the last one it goes
    /// to the last, off the shown set to the first.
    pub fn clamp_selection(&mut self)
        requires
            app_wf(old(self)),
        ensures
            app_wf(final(self)),
            nav_frame(final(self), old(self)),
            final(self).scroll_offset == old(self).scroll_offset,
            final(self).auto_scroll == old(self).auto_scroll,
            final(self).selected == clamped(shown(old(self)), old(self).selected),
    {
        let filtered = self.filtered_indices();
        let n = filtered.len();
        if n > 0 {
            let ghost m = *self;
            if self.selected > filtered[n - 1] {
                self.selected = filtered[n - 1];
            } else {
                match position_in(&filtered, self.selected) {
                    Some(_) => {
                        proof {
                            lemma_position_of(filtered@, self.selected);
                        }
                    },
                    None => {
                        proof {
                            lemma_position_of(filtered@, self.selected);
                        }
                        self.selected = filtered[0];
                    },
                }
            }
            proof {
                lemma_shown_bounds(old(self));
                lemma_wf_nav(self, &m);
            }
        }
    }

    /// Handles a key press while the filter prompt is open: the prompt's own
    /// handling, then quitting or opening the help as it asks, and after the
    /// prompt closes the selection is brought among the shown lines.
    #[verifier::spinoff_prover]
    pub fn handle_filter_input(&mut self, key: KeyEvent)
        requires
            app_wf(old(self)),
        ensures
            app_wf(final(self)),
            exists|r: (bool, bool, bool)| #[trigger] filter_handled(old(self).filter, key, final(self).filter, r)
                && final(self).should_quit == (old(self).should_quit || r.2)
                && final(self).show_help == (old(self).show_help || r.1)
                && final(self).help_scroll == (if r.1 { 0 } else { old(self).help_scroll }),
            final(self).lines == old(self).lines,
            final(self).context_mode == old(self).context_mode,
            final(self).expanded == old(self).expanded && final(self).expand_all == old(self).expand_all,
            final(self).scroll_offset == old(self).scroll_offset,
            final(self).selected == (if final(self).filter@.input is None {
                clamped(shown(final(self)), old(self).selected)
            } else {
                old(self).selected
            }),
    {
        let ghost f0 = self.filter;
        let r = self.filter.handle_filter_key(key);
        let (_, toggle_help, quit) = r;
        proof {
            assert(filter_handled(f0, key, self.filter, r));
        }
        if quit {
            self.should_quit = true;
        }
        if toggle_help {
            self.help_scroll = 0;
            self.show_help = true;
        }
        self.cache.invalidate();
        if self.filter.filter_input.is_none() {
            self.clamp_selection();
        }
    }

    /// The rows of each of the lines `filtered` at `width` columns.
    pub fn compute_row_layout(&self, filtered: &Vec<usize>, width: usize) -> (r: Vec<usize>)
        requires
            forall|k: int| 0 <= k < filtered@.len() ==> #[trigger] filtered@[k] < self.lines@.len(),
        ensures
            r@.len() == filtered@.len(),
            forall|k: int| 0 <= k < filtered@.len() ==> #[trigger] r@[k] == entry_height(self, filtered@[k] as int, width as nat),
    {
        let mut out: Vec<usize> = Vec::new();
        let mut k: usize = 0;
        while k < filtered.len()
            invariant
                k <= filtered@.len(),
                out@.len() == k,
                forall|j: int| 0 <= j < filtered@.len() ==> #[trigger] filtered@[j] < self.lines@.len(),
                forall|j: int| 0 <= j < k ==> #[trigger] out@[j] == entry_height(self, filtered@[j] as int, width as nat),
            decreases filtered@.len() - k,
        {
            let h = self.entry_display_height(filtered[k], width);
            out.push(h);
            k = k + 1;
        }
        out
    }

    /// The row layout kept in the cache, when it was made for `width`.
    fn cached_layout_for(&self, width: usize) -> (r: Option<(Vec<usize>, Vec<usize>)>)
        requires
            app_wf(self),
        ensures
            r is Some <==> (self.cache.row_layout matches Some((w, _, _)) && w == width),
            r matches Some(x) ==> x.0@ == row_heights(self, width as nat) && x.1@ == prefix_sums(x.0@),
    {
        match &self.cache.row_layout {
            Some((w, h, p)) => if *w == width {
                Some((h.clone(), p.clone()))
            } else {
                None
            },
            None => None,
        }
    }

    /// The rows of each shown line at `width` columns and their running
    /// totals, from the cache when it holds them for that width.
    #[verifier::spinoff_prover]
    pub fn cached_row_layout(&mut self, width: usize) -> (r: (Vec<usize>, Vec<usize>))
        requires
            app_wf(old(self)),
        ensures
            r.0@ == row_heights(old(self), width as nat),
            r.1@ == prefix_sums(r.0@),
            app_wf(final(self)),
            unchanged_but_cache(final(self), old(self)),
    {
        let hit = self.cached_layout_for(width);
        if hit.is_some() {
            proof {
                assert(app_wf(self));
            }
            return hit.unwrap();
        }
        let filtered = self.filtered_indices();
        proof {
            lemma_shown_bounds(self);
        }
        let heights = self.compute_row_layout(&filtered, width);
        assert(heights@ =~= row_heights(self, width as nat));
        let sums = running_totals(&heights);
        self.cache.row_layout = Some((width, heights.clone(), sums.clone()));
        proof {
            lemma_cache_only(self, old(self));
            assert(self.cache.row_layout matches Some((w, h, p)) && h@ == row_heights(self, w as nat));
            assert(app_wf(self));
        }
        (heights, sums)
    }
}

/// The running totals of `h`, starting at zero, with capped additions.
pub fn running_totals(h: &Vec<usize>) -> (r: Vec<usize>)
    ensures
        r@ == prefix_sums(h@),
{
    let mut out: Vec<usize> = Vec::new();
    out.push(0);
    let mut acc: usize = 0;
    let mut i: usize = 0;
    assert(out@ =~= prefix_sums(h@.subrange(0, 0)));
    while i < h.len()
        invariant
            i <= h@.len(),
            out@ == prefix_sums(h@.subrange(0, i as int)),
            acc == out@.last(),
        decreases h@.len() - i,
    {
        acc = acc.saturating_add(h[i]);
        out.push(acc);
        proof {
            assert(h@.subrange(0, i + 1).drop_last() =~= h@.subrange(0, i as int));
        }
        i = i + 1;
    }
    assert(h@.subrange(0, i as int) =~= h@);
    out
}

/// The shown indices lie below the number of lines and increase.
pub proof fn lemma_shown_bounds(app: &App)
    requires
        app.lines@.len() < usize::MAX,
    ensures
        forall|k: int| 0 <= k < shown(app).len() ==> #[trigger] shown(app)[k] < app.lines@.len(),
        forall|i: int, j: int| 0 <= i < j < shown(app).len() ==> shown(app)[i] < shown(app)[j],
        shown(app).len() <= app.lines@.len(),
{
    let n = app.lines@.len() as int;
    let a = all_indices(n);
    assert forall|i: int, j: int| 0 <= i < j < a.len() implies a[i] < a[j] by {
        assert(a[i] == i as usize);
        assert(a[j] == j as usize);
    }
    if !app.context_mode {
        match active_query(app.filter@) {
            Some(q) => if q.len() > 0 {
                crate::classic::lemma_passing_bounds(line_texts(app.lines@), q, n);
            },
            None => {},
        }
    }
}

/// Where `x` first occurs in `v`.
pub fn position_in(v: &Vec<usize>, x: usize) -> (r: Option<usize>)
    ensures
        r matches Some(k) ==> position_of(v@, x) == Some(k as int),
        r is None ==> position_of(v@, x) is None,
{
    proof {
        lemma_position_of(v@, x);
    }
    let n = v.len();
    let mut k: usize = 0;
    while k < n
        invariant
            n == v@.len(),
            k <= n,
            forall|j: int| 0 <= j < k ==> v@[j] != x,
        decreases n - k,
    {
        if v[k] == x {
            proof {
                lemma_position_of(v@, x);
                assert(v@[k as int] == x);
                assert(position_of(v@, x) == Some(k as int)) by {
                    match position_of(v@, x) {
                        Some(p) => {
                            assert(!(p < k));
                            assert(!(p > k));
                        },
                        None => {
                            assert(false);
                        },
                    }
                }
            }
            return Some(k);
        }
        k = k + 1;
    }
    proof {
        lemma_position_of(v@, x);
        if position_of(v@, x) is Some {
            let p = position_of(v@, x)->0;
            assert(v@[p] == x);
        }
    }
    None
}

/// The scroll offset that shows an entry starting at row `first` with
/// `hgt` rows, from `offset`, on `vh` rows.
fn showing_offset(offset: usize, first: usize, hgt: usize, vh: usize) -> (r: usize)
    ensures
        r == to_usize(visible_offset(offset as int, first as int, hgt as int, vh as int)),
{
    let o1 = if offset > first {
        first
    } else {
        offset
    };
    let bottom = (first as u128) + (hgt as u128);
    if bottom > (o1 as u128) + (vh as u128) {
        let t = bottom - (vh as u128);
        if t > (usize::MAX as u128) {
            usize::MAX
        } else {
            t as usize
        }
    } else {
        o1
    }
}

/// The last index `i <= start` with `ps[i] <= target` (or zero).
pub fn last_index_at_or_below(ps: &Vec<usize>, target: usize, start: usize) -> (r: usize)
    requires
        start < ps@.len(),
    ensures
        r == last_at_or_below(ps@, target as int, start as int),
        r <= start,
        r == 0 || ps@[r as int] <= target,
{
    let mut i = start;
    while i > 0 && ps[i] > target
        invariant
            i <= start < ps@.len(),
            last_at_or_below(ps@, target as int, i as int) == last_at_or_below(ps@, target as int, start as int),
        decreases i,
    {
        i = i - 1;
    }
    i
}

/// Indices after the first line is dropped: `0` leaves, the others move down.
pub open spec fn shifted(v: Seq<usize>) -> Seq<usize> {
    let w = if v.len() > 0 && v[0] == 0 {
        v.subrange(1, v.len() as int)
    } else {
        v
    };
    w.map_values(|x: usize| (x - 1) as usize)
}

/// Appending a line does not change which earlier lines pass.
pub proof fn lemma_passing_push(t: Seq<Seq<char>>, x: Seq<char>, q: Seq<SegmentV>, m: int)
    requires
        0 <= m <= t.len(),
    ensures
        passing(t.push(x), q, m) == passing(t, q, m),
    decreases m,
{
    if m > 0 {
        lemma_passing_push(t, x, q, m - 1);
        assert(t.push(x)[m - 1] == t[m - 1]);
    }
}

/// Dropping the first line shifts the indices of the lines that pass.
pub proof fn lemma_passing_drop_first(t: Seq<Seq<char>>, q: Seq<SegmentV>, m: int)
    requires
        0 <= m,
        m + 1 <= t.len(),
        t.len() <= usize::MAX,
    ensures
        passing(t.subrange(1, t.len() as int), q, m) == shifted(passing(t, q, m + 1)),
    decreases m,
{
    let d = t.subrange(1, t.len() as int);
    crate::classic::lemma_passing_bounds(t, q, m + 1);
    if m == 0 {
        let p1 = passing(t, q, 1);
        assert(passing(t, q, 0) =~= Seq::<usize>::empty());
        assert(shifted(p1) =~= Seq::<usize>::empty());
    } else {
        lemma_passing_drop_first(t, q, m - 1);
        crate::classic::lemma_passing_bounds(t, q, m);
        assert(d[m - 1] == t[m]);
        let a = passing(t, q, m);
        if query_holds(q, t[m]) {
            let b = a.push(m as usize);
            assert(passing(t, q, m + 1) == b);
            assert(shifted(b) =~= shifted(a).push((m - 1) as usize)) by {
                if a.len() > 0 && a[0] == 0 {
                    assert(b[0] == 0);
                    assert(b.subrange(1, b.len() as int) =~= a.subrange(1, a.len() as int).push(m as usize));
                } else if a.len() == 0 {
                    assert(b[0] == m);
                } else {
                    assert(b[0] == a[0]);
                }
            }
        }
    }
}

/// Dropping the first of `n + 1` lines shifts the indices.
pub proof fn lemma_all_indices_drop_first(n: int)
    requires
        0 <= n < usize::MAX,
    ensures
        all_indices(n) == shifted(all_indices(n + 1)),
{
    let a = all_indices(n + 1);
    assert(a[0] == 0);
    assert(shifted(a) =~= all_indices(n));
}

/// Appending one index.
pub proof fn lemma_all_indices_push(n: int)
    requires
        0 <= n < usize::MAX,
    ensures
        all_indices(n + 1) == all_indices(n).push(n as usize),
{
    assert(all_indices(n + 1) =~= all_indices(n).push(n as usize));
}

/// The indices of `v`, with a leading `0` removed and the rest moved down.
fn shift_indices(v: Vec<usize>) -> (r: Vec<usize>)
    requires
        forall|i: int, j: int| 0 <= i < j < v@.len() ==> v@[i] < v@[j],
    ensures
        r@ == shifted(v@),
{
    let mut v = v;
    let ghost v0 = v@;
    if v.len() > 0 && v[0] == 0 {
        v.remove(0);
    }
    let ghost w = v@;
    assert(w == (if v0.len() > 0 && v0[0] == 0 { v0.subrange(1, v0.len() as int) } else { v0 }));
    assert(forall|k: int| 0 <= k < w.len() ==> w[k] > 0) by {
        assert forall|k: int| 0 <= k < w.len() implies w[k] > 0 by {
            if v0.len() > 0 && v0[0] == 0 {
                assert(w[k] == v0[k + 1]);
                assert(v0[0] < v0[k + 1]);
            } else {
                if k > 0 {
                    assert(v0[0] < v0[k]);
                }
            }
        }
    }
    let mut out: Vec<usize> = Vec::new();
    let mut i: usize = 0;
    while i < v.len()
        invariant
            w == v@,
            i <= w.len(),
            forall|k: int| 0 <= k < w.len() ==> w[k] > 0,
            out@ == w.subrange(0, i as int).map_values(|x: usize| (x - 1) as usize),
        decreases w.len() - i,
    {
        out.push(v[i] - 1);
        i = i + 1;
        assert(out@ =~= w.subrange(0, i as int).map_values(|x: usize| (x - 1) as usize));
    }
    assert(w.subrange(0, i as int) =~= w);
    out
}

/// The set `{ i - 1 | i in s, i > 0 }` for a set of indices below `n`.
fn shifted_set(s: &HashSet<usize>, n: usize) -> (r: HashSet<usize>)
    requires
        forall|i: usize| s@.contains(i) ==> i < n,
    ensures
        forall|j: usize| r@.contains(j) <==> j + 1 <= usize::MAX && s@.contains((j + 1) as usize),
{
    let mut out: HashSet<usize> = HashSet::new();
    let mut k: usize = 1;
    while k < n
        invariant
            1 <= k <= n || n == 0,
            forall|i: usize| s@.contains(i) ==> i < n,
            forall|j: usize| out@.contains(j) <==> (1 <= j + 1 < k && s@.contains((j + 1) as usize)),
        decreases n - k,
    {
        if s.contains(&k) {
            out.insert(k - 1);
        }
        k = k + 1;
    }
    out
}

/// A new line is shown, or not, after the lines shown before it.
pub proof fn lemma_shown_push(a: &App, b: &App, x: Seq<char>)
    requires
        line_texts(a.lines@) == line_texts(b.lines@).push(x),
        a.context_mode == b.context_mode,
        a.filter == b.filter,
        b.lines@.len() + 1 < usize::MAX,
    ensures
        shown(a) == (if shows_new(b, x) {
            shown(b).push(b.lines@.len() as usize)
        } else {
            shown(b)
        }),
{
    let n = b.lines@.len() as int;
    let t0 = line_texts(b.lines@);
    assert(a.lines@.len() == n + 1) by {
        assert(line_texts(a.lines@).len() == a.lines@.len());
    }
    lemma_all_indices_push(n);
    if !b.context_mode {
        match active_query(b.filter@) {
            Some(q) => {
                if q.len() > 0 {
                    lemma_passing_push(t0, x, q, n);
                    assert(t0.push(x)[n] == x);
                } else {
                    assert(query_holds(q, x));
                }
            },
            None => {},
        }
    }
}

/// After the first line is dropped, the shown lines move down by one.
pub proof fn lemma_shown_drop(a: &App, b: &App, x: Seq<char>)
    requires
        line_texts(a.lines@) == line_texts(b.lines@).push(x).subrange(1, b.lines@.len() as int + 1),
        a.context_mode == b.context_mode,
        a.filter == b.filter,
        b.lines@.len() + 1 < usize::MAX,
    ensures
        shown(a) == (if shows_new(b, x) && b.lines@.len() > 0 {
            shifted(shown(b)).push((b.lines@.len() - 1) as usize)
        } else {
            shifted(shown(b))
        }),
{
    let n = b.lines@.len() as int;
    let t0 = line_texts(b.lines@);
    let s = t0.push(x);
    assert(a.lines@.len() == n) by {
        assert(line_texts(a.lines@).len() == a.lines@.len());
    }
    lemma_all_indices_drop_first(n);
    lemma_all_indices_push(n);
    let all1 = all_indices(n + 1);
    let all0 = all_indices(n);
    assert(shifted(all0.push(n as usize)) =~= (if n > 0 { shifted(all0).push((n - 1) as usize) } else { shifted(all0) })) by {
        if n > 0 {
            assert(all0[0] == 0);
            assert(all0.push(n as usize)[0] == 0);
            assert(all0.push(n as usize).subrange(1, n + 1) =~= all0.subrange(1, n).push(n as usize));
        } else {
            assert(all0.push(n as usize) =~= seq![0usize]);
        }
    }
    if !b.context_mode {
        match active_query(b.filter@) {
            Some(q) => {
                if q.len() > 0 {
                    lemma_passing_drop_first(s, q, n);
                    lemma_passing_push(t0, x, q, n);
                    assert(s[n] == x);
                    let p0 = passing(t0, q, n);
                    crate::classic::lemma_passing_bounds(t0, q, n);
                    if query_holds(q, x) {
                        assert(shifted(p0.push(n as usize)) =~= (if n > 0 { shifted(p0).push((n - 1) as usize) } else { shifted(p0) })) by {
                            if n == 0 {
                                assert(p0 =~= Seq::<usize>::empty());
                                assert(p0.push(0usize) =~= seq![0usize]);
                            } else if p0.len() > 0 && p0[0] == 0 {
                                assert(p0.push(n as usize)[0] == 0);
                                assert(p0.push(n as usize).subrange(1, p0.len() as int + 1) =~= p0.subrange(1, p0.len() as int).push(n as usize));
                            } else if p0.len() == 0 {
                                assert(p0.push(n as usize)[0] == n);
                            } else {
                                assert(p0.push(n as usize)[0] == p0[0]);
                            }
                        }
                    }
                } else {
                    assert(query_holds(q, x));
                }
            },
            None => {},
        }
    }
}

/// `base64::engine::general_purpose::STANDARD.encode`: the standard base64
/// encoding of the bytes, with padding.
#[verifier::external_body]
fn base64_standard(bytes: &[u8]) -> (r: String)
    ensures
        r@ == spec_base64(bytes@),
{
    base64::engine::general_purpose::STANDARD.encode(bytes)
}

/// The OSC 52 sequence that copies `text` to the clipboard.
pub fn osc52_sequence(text: &str) -> (r: String)
    ensures
        r@ == osc52(text@),
{
    let head = ['\u{1b}', ']', '5', '2', ';', 'c', ';'];
    let enc = base64_standard(text.as_bytes());
    let mut v: Vec<char> = Vec::new();
    let mut i: usize = 0;
    while i < 7
        invariant
            i <= 7,
            head@.len() == 7,
            v@ == head@.subrange(0, i as int),
        decreases 7 - i,
    {
        v.push(head[i]);
        i = i + 1;
        assert(v@ =~= head@.subrange(0, i as int));
    }
    let body = crate::text::chars_of(enc.as_str());
    let mut j: usize = 0;
    while j < body.len()
        invariant
            j <= body@.len(),
            v@ == head@ + body@.subrange(0, j as int),
            head@.len() == 7,
        decreases body@.len() - j,
    {
        v.push(body[j]);
        j = j + 1;
        assert(v@ =~= head@ + body@.subrange(0, j as int));
    }
    v.push('\u{7}');
    assert(body@.subrange(0, j as int) =~= body@);
    assert(head@ =~= seq!['\u{1b}', ']', '5', '2', ';', 'c', ';']);
    assert(v@ =~= osc52(text@));
    crate::text::string_of(v.as_slice())
}

/// What the cache stands for does not depend on the cache.
pub proof fn lemma_cache_only(a: &App, b: &App)
    requires
        layout_frame(a, b),
    ensures
        shown(a) == shown(b),
        forall|w: nat| #[trigger] row_heights(a, w) == row_heights(b, w),
{
    assert forall|w: nat| #[trigger] row_heights(a, w) == row_heights(b, w) by {
        assert(row_heights(a, w) =~= row_heights(b, w));
    }
}

/// Adding a line keeps the number of lines within the limit, and the new
/// line is the last one unless the limit is zero.
pub proof fn lemma_line_limit(a: Seq<LogEntry>, b: Seq<LogEntry>, line: Seq<char>, max: usize)
    requires
        line_texts(b) == (if a.len() + 1 > max {
            line_texts(a).push(line).drop_first()
        } else {
            line_texts(a).push(line)
        }),
    ensures
        a.len() <= max ==> b.len() <= max,
        max > 0 ==> b.len() > 0 && b.last().text@ == line,
{
    assert(line_texts(b).len() == b.len());
    if b.len() > 0 {
        assert(line_texts(b)[b.len() - 1] == b.last().text@);
    }
}

/// What entering context mode does: nothing when already in it or when
/// there are no lines; otherwise the list view's selection, scroll position,
/// auto-scroll and expansion are put aside, every line is shown collapsed
/// around the selection, and auto-scroll is off.
pub open spec fn context_entered(a: &App, b: &App) -> bool {
    &&& (a.context_mode || a.lines@.len() == 0 ==> *b == *a)
    &&& (!a.context_mode && a.lines@.len() > 0 ==> {
        &&& b.context_mode
        &&& b.context_center == a.selected
        &&& b.selected == a.selected
        &&& b.main_selected == a.selected
        &&& b.main_scroll_offset == a.scroll_offset
        &&& b.main_auto_scroll == a.auto_scroll
        &&& b.main_expanded == a.expanded
        &&& b.main_expand_all == a.expand_all
        &&& !b.auto_scroll
        &&& !b.expand_all
        &&& b.expanded@.is_empty()
    })
    &&& context_frame(b, a)
}

/// What leaving context mode does: nothing when not in it; otherwise the
/// list view's selection, scroll position, auto-scroll and expansion (of
/// lines that still exist) come back.
pub open spec fn context_exited(a: &App, b: &App) -> bool {
    &&& (!a.context_mode ==> *b == *a)
    &&& (a.context_mode ==> {
        &&& !b.context_mode
        &&& b.selected == a.main_selected
        &&& b.scroll_offset == a.main_scroll_offset
        &&& b.auto_scroll == a.main_auto_scroll
        &&& b.expand_all == a.main_expand_all
        &&& forall|i: usize| #[trigger] b.expanded@.contains(i) <==> a.main_expanded@.contains(i) && i < a.lines@.len()
    })
    &&& context_frame(b, a)
}

/// What entering or leaving context mode leaves alone.
pub open spec fn context_frame(a: &App, b: &App) -> bool {
    &&& a.lines == b.lines
    &&& a.filter == b.filter
    &&& a.max_lines == b.max_lines
    &&& a.should_quit == b.should_quit
    &&& a.colors == b.colors
    &&& a.pending_g == b.pending_g
    &&& a.pending_z == b.pending_z
    &&& a.process_exited == b.process_exited
    &&& a.show_help == b.show_help
    &&& a.help_scroll == b.help_scroll
    &&& a.recording == b.recording
    &&& a.command_input == b.command_input
    &&& a.command_error == b.command_error
}

/// Everything but the lines' layout inputs, the cache and the selection stays.
pub open spec fn nav_state_same(a: &App, b: &App) -> bool {
    &&& a.scroll_offset == b.scroll_offset
    &&& a.auto_scroll == b.auto_scroll
    &&& a.max_lines == b.max_lines
    &&& a.should_quit == b.should_quit
    &&& a.colors == b.colors
    &&& a.pending_g == b.pending_g
    &&& a.pending_z == b.pending_z
    &&& a.process_exited == b.process_exited
    &&& a.show_help == b.show_help
    &&& a.help_scroll == b.help_scroll
    &&& a.recording == b.recording
    &&& a.command_input == b.command_input
    &&& a.command_error == b.command_error
    &&& a.context_center == b.context_center
    &&& a.main_selected == b.main_selected
    &&& a.main_scroll_offset == b.main_scroll_offset
    &&& a.main_auto_scroll == b.main_auto_scroll
    &&& a.main_expanded == b.main_expanded
    &&& a.main_expand_all == b.main_expand_all
}

/// What the shown lines and their heights depend on is the same.
pub open spec fn layout_frame(a: &App, b: &App) -> bool {
    &&& a.lines == b.lines
    &&& a.colors == b.colors
    &&& a.filter == b.filter
    &&& a.expanded == b.expanded
    &&& a.expand_all == b.expand_all
    &&& a.context_mode == b.context_mode
}

/// Only the cache, the selection and the scroll position may differ.
pub open spec fn nav_frame(a: &App, b: &App) -> bool {
    &&& a.lines == b.lines
    &&& a.max_lines == b.max_lines
    &&& a.should_quit == b.should_quit
    &&& a.colors == b.colors
    &&& a.filter == b.filter
    &&& a.pending_g == b.pending_g
    &&& a.pending_z == b.pending_z
    &&& a.expanded == b.expanded
    &&& a.expand_all == b.expand_all
    &&& a.process_exited == b.process_exited
    &&& a.show_help == b.show_help
    &&& a.help_scroll == b.help_scroll
    &&& a.recording == b.recording
    &&& a.command_input == b.command_input
    &&& a.command_error == b.command_error
    &&& a.context_mode == b.context_mode
    &&& a.context_center == b.context_center
    &&& a.main_selected == b.main_selected
    &&& a.main_scroll_offset == b.main_scroll_offset
    &&& a.main_auto_scroll == b.main_auto_scroll
    &&& a.main_expanded == b.main_expanded
    &&& a.main_expand_all == b.main_expand_all
}

/// The selection and scroll position are not what the cache stands for.
pub proof fn lemma_wf_nav(a: &App, b: &App)
    requires
        app_wf(b),
        layout_frame(a, b),
        a.cache == b.cache,
        selection_on_line(a),
    ensures
        app_wf(a),
{
    lemma_cache_only(a, b);
}

/// Only the cache differs.
pub open spec fn unchanged_but_cache(a: &App, b: &App) -> bool {
    &&& a.lines == b.lines
    &&& a.selected == b.selected
    &&& a.scroll_offset == b.scroll_offset
    &&& a.auto_scroll == b.auto_scroll
    &&& a.max_lines == b.max_lines
    &&& a.should_quit == b.should_quit
    &&& a.colors == b.colors
    &&& a.filter == b.filter
    &&& a.pending_g == b.pending_g
    &&& a.pending_z == b.pending_z
    &&& a.expanded == b.expanded
    &&& a.expand_all == b.expand_all
    &&& a.process_exited == b.process_exited
    &&& a.show_help == b.show_help
    &&& a.help_scroll == b.help_scroll
    &&& a.recording == b.recording
    &&& a.command_input == b.command_input
    &&& a.command_error == b.command_error
    &&& a.context_mode == b.context_mode
    &&& a.context_center == b.context_center
    &&& a.main_selected == b.main_selected
    &&& a.main_scroll_offset == b.main_scroll_offset
    &&& a.main_auto_scroll == b.main_auto_scroll
    &&& a.main_expanded == b.main_expanded
    &&& a.main_expand_all == b.main_expand_all
}

} // verus!
