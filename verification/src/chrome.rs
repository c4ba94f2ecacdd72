//! The rows around the list: the title bar, the prompt row and the status row.
use vstd::prelude::*;
use crate::classic::position_of;
use crate::filter::{FilterError, error_text, query_display};
use crate::filter_state::active_query;
use crate::render::{display_width, line_width, spans_width_wide, str_width, truncated};
use crate::screen::{space_string, spaces};
use crate::style::{Color, Line, REVERSED, Span, SpanV, Style, plain_style, spans_view};
use crate::text::{chars_of, concat_text, decimal, decimal_text, string_of};
use crate::viewer::{App, ShortcutItem, app_wf, shown, unchanged_but_cache};

verus! {

/// `parts` joined with `sep` between each two.
pub open spec fn joined(parts: Seq<Seq<char>>, sep: Seq<char>) -> Seq<char>
    decreases parts.len(),
{
    if parts.len() == 0 {
        seq![]
    } else if parts.len() == 1 {
        parts[0]
    } else {
        joined(parts.drop_last(), sep) + sep + parts.last()
    }
}

/// `a - b`, or zero when `b` is larger.
pub open spec fn sat_sub(a: int, b: int) -> nat {
    if a > b {
        (a - b) as nat
    } else {
        0
    }
}

/// Joins `parts` with `sep` between each two.
pub fn join_parts(parts: &Vec<String>, sep: &str) -> (r: String)
    ensures
        r@ == joined(parts@.map_values(|p: String| p@), sep@),
{
    let ghost pv = parts@.map_values(|p: String| p@);
    let mut out: Vec<char> = Vec::new();
    let s = chars_of(sep);
    let mut i: usize = 0;
    while i < parts.len()
        invariant
            i <= parts@.len(),
            pv == parts@.map_values(|p: String| p@),
            s@ == sep@,
            out@ == joined(pv.subrange(0, i as int), sep@),
        decreases parts@.len() - i,
    {
        if i > 0 {
            let mut k: usize = 0;
            let ghost o0 = out@;
            while k < s.len()
                invariant
                    k <= s@.len(),
                    out@ == o0 + s@.subrange(0, k as int),
                decreases s@.len() - k,
            {
                out.push(s[k]);
                k = k + 1;
                assert(out@ =~= o0 + s@.subrange(0, k as int));
            }
            assert(s@.subrange(0, k as int) =~= s@);
        }
        let p = chars_of(parts[i].as_str());
        let mut k: usize = 0;
        let ghost o1 = out@;
        while k < p.len()
            invariant
                k <= p@.len(),
                out@ == o1 + p@.subrange(0, k as int),
            decreases p@.len() - k,
        {
            out.push(p[k]);
            k = k + 1;
            assert(out@ =~= o1 + p@.subrange(0, k as int));
        }
        proof {
            assert(p@.subrange(0, k as int) =~= p@);
            let sub = pv.subrange(0, i + 1);
            assert(sub.drop_last() =~= pv.subrange(0, i as int));
            assert(sub.last() == parts@[i as int]@);
            if i == 0 {
                assert(pv.subrange(0, 0) =~= Seq::<Seq<char>>::empty());
                assert(out@ =~= sub[0]);
            } else {
                assert(out@ =~= joined(sub.drop_last(), sep@) + sep@ + sub.last());
            }
        }
        i = i + 1;
    }
    assert(pv.subrange(0, i as int) =~= pv);
    string_of(out.as_slice())
}

/// The three strings one after the other.
fn concat3(a: &str, b: &str, c: &str) -> (r: String)
    ensures
        r@ == a@ + b@ + c@,
{
    let ab = concat_text(a, chars_of(b).as_slice());
    concat_text(ab.as_str(), chars_of(c).as_slice())
}

/// The style of the title bar: white on black, reversed.
pub open spec fn title_style() -> Style {
    Style { fg: Some(Color::White), bg: Some(Color::Black), add_modifier: REVERSED, sub_modifier: 0 }
}

/// What the middle of the title bar says: the query in force and the file
/// being recorded, joined by ` > `.
pub open spec fn title_center(app: &App) -> Seq<char> {
    let q: Seq<Seq<char>> = match active_query(app.filter@) {
        Some(q) => seq!["Filter: "@ + query_display(q)],
        None => seq![],
    };
    let r: Seq<Seq<char>> = match app.recording {
        Some(p) => seq!["REC "@ + p@],
        None => seq![],
    };
    joined(q + r, " > "@)
}

/// The title bar at `width` columns: the name on the left, the middle text
/// centered in the rest, all reversed, padded to the full width.
pub open spec fn titlebar_view(app: &App, width: nat) -> Seq<SpanV> {
    let st = title_style();
    let c = title_center(app);
    let ll = str_width("logq"@);
    let remaining = sat_sub(sat_sub(width as int, ll as int) as int, str_width(c) as int);
    let pl = remaining / 2;
    let pr = (remaining - pl) as nat;
    let base = seq![SpanV { content: "logq"@, style: st }] + (if c.len() > 0 {
        seq![
            SpanV { content: spaces(pl), style: st },
            SpanV { content: c, style: st },
            SpanV { content: spaces(pr), style: st },
        ]
    } else {
        seq![SpanV { content: spaces(sat_sub(width as int, ll as int)), style: st }]
    });
    if line_width(base) < width {
        base.push(SpanV { content: spaces((width - line_width(base)) as nat), style: st })
    } else {
        base
    }
}

/// The row of an error message at `width` columns: ` Error: ` and the
/// message in red, then blanks.
pub open spec fn error_row(msg: Seq<char>, width: nat) -> Seq<SpanV> {
    let full = str_width(" Error: "@) + str_width(msg) + 1;
    seq![
        SpanV { content: " Error: "@ + msg, style: Style { fg: Some(Color::Red), ..plain_style() } },
        SpanV { content: spaces(sat_sub(width as int, full as int)), style: plain_style() },
    ]
}

/// The parts of the status row: the position of the selection among the
/// shown lines, the number of lines when a query applies, whether the
/// source has exited, the recording, and whether the view follows new lines.
pub open spec fn status_parts(app: &App) -> Seq<Seq<char>> {
    let f = shown(app);
    let pos: Seq<Seq<char>> = match position_of(f, app.selected) {
        Some(p) => seq![decimal((p + 1) as nat) + "/"@ + decimal(f.len())],
        None => seq![],
    };
    let total: Seq<Seq<char>> = if app.filter@.query is Some || app.filter@.live_query is Some {
        seq![decimal(app.lines@.len()) + " total"@]
    } else {
        seq![]
    };
    let exited: Seq<Seq<char>> = if app.process_exited { seq!["exited"@] } else { seq![] };
    let rec: Seq<Seq<char>> = match app.recording {
        Some(p) => seq!["REC "@ + p@],
        None => seq![],
    };
    let mode: Seq<Seq<char>> = if app.auto_scroll { seq!["FOLLOW"@] } else { seq!["SCROLL"@] };
    pos + total + exited + rec + mode
}

/// The status row at `width` columns: a command error, else a filter error
/// (the one of the text being typed first), else the status parts.
pub open spec fn status_view(app: &App, width: nat) -> Seq<SpanV> {
    match app.command_error {
        Some(e) => error_row(e@, width),
        None => match (if app.filter@.live_error is Some { app.filter@.live_error } else { app.filter@.error }) {
            Some(e) => error_row(error_text(e), width),
            None => {
                let t = joined(status_parts(app), " │ "@);
                seq![
                    SpanV { content: " "@ + t, style: Style { fg: Some(Color::Gray), ..plain_style() } },
                    SpanV { content: spaces(sat_sub(width as int, str_width(t) + 1int)), style: plain_style() },
                ]
            },
        },
    }
}

/// The style of typed text: white on dark gray.
pub open spec fn typed_style() -> Style {
    Style { fg: Some(Color::White), bg: Some(Color::DarkGray), ..plain_style() }
}

/// The label of the history search.
pub open spec fn search_label(failed: bool) -> Seq<char> {
    if failed {
        "(failed reverse-i-search)"@
    } else {
        "(reverse-i-search)"@
    }
}

/// The spans of the prompt row before padding: the command being typed
/// after `:`; else the history search, its pattern and the match; else the
/// query being typed.
pub open spec fn input_base(app: &App) -> Seq<SpanV> {
    let typed: Seq<char> = match app.filter@.input {
        Some(v) => v,
        None => seq![],
    };
    match app.command_input {
        Some(t) => seq![SpanV { content: ":"@ + t@, style: typed_style() }],
        None => match app.filter@.search_pattern {
            Some(p) => seq![
                SpanV {
                    content: " "@ + search_label(app.filter@.search_failed) + "'"@ + p + "': "@,
                    style: Style { fg: Some(Color::Yellow), bg: Some(Color::DarkGray), ..plain_style() },
                },
                SpanV { content: typed, style: typed_style() },
            ],
            None => seq![SpanV { content: " "@ + typed, style: typed_style() }],
        },
    }
}

/// `base` with blanks in `style` added up to `width` columns.
pub open spec fn padded(base: Seq<SpanV>, width: nat, style: Style) -> Seq<SpanV> {
    if line_width(base) < width {
        base.push(SpanV { content: spaces((width - line_width(base)) as nat), style })
    } else {
        base
    }
}

/// The prompt row at `width` columns, padded with dark gray blanks.
pub open spec fn input_view(app: &App, width: nat) -> Seq<SpanV> {
    padded(input_base(app), width, Style { bg: Some(Color::DarkGray), ..plain_style() })
}

/// The row of an error message.
fn error_line(msg: &str, width: usize) -> (r: Line)
    ensures
        spans_view(r.spans@) == error_row(msg@, width as nat),
{
    let prefix = " Error: ";
    let full: u128 = display_width(prefix) as u128 + display_width(msg) as u128 + 1;
    let pad: usize = if (width as u128) > full { (width as u128 - full) as usize } else { 0 };
    let text = concat_text(prefix, chars_of(msg).as_slice());
    let mut spans: Vec<Span> = Vec::new();
    spans.push(Span::styled(text, Style::new().fg(Color::Red)));
    spans.push(Span::raw(space_string(pad)));
    assert(spans_view(spans@) =~= error_row(msg@, width as nat));
    Line { spans }
}

/// Adds blanks in `style` up to `width` columns when the row is narrower.
fn pad_to(spans: &mut Vec<Span>, width: usize, style: Style)
    ensures
        spans_view(final(spans)@) == (if line_width(spans_view(old(spans)@)) < width {
            spans_view(old(spans)@).push(SpanV { content: spaces((width - line_width(spans_view(old(spans)@))) as nat), style })
        } else {
            spans_view(old(spans)@)
        }),
{
    let total = spans_width_wide(spans);
    if total < width as u128 {
        let ghost before = spans_view(spans@);
        let sp = Span::styled(space_string((width as u128 - total) as usize), style);
        spans.push(sp);
        assert(spans_view(spans@) =~= before.push(sp@));
    }
}

impl App {
    /// The title bar at `width` columns (see `titlebar_view`).
    pub fn titlebar_line(&self, width: usize) -> (r: Line)
        requires
            app_wf(self),
        ensures
            spans_view(r.spans@) == titlebar_view(self, width as nat),
    {
        let st = Style::new().fg(Color::White).bg(Color::Black).add_modifier(REVERSED);
        assert(0u16 | 64u16 == 64u16 && 0u16 & !64u16 == 0u16) by (bit_vector);
        assert(st == title_style());
        let mut parts: Vec<String> = Vec::new();
        let ghost mut pv: Seq<Seq<char>> = seq![];
        match self.filter.active_filter_query() {
            Some(q) => {
                let d = q.display_string();
                parts.push(concat_text("Filter: ", chars_of(d.as_str()).as_slice()));
                proof {
                    pv = seq!["Filter: "@ + query_display(q@)];
                }
            },
            None => {},
        }
        match &self.recording {
            Some(p) => {
                parts.push(concat_text("REC ", chars_of(p.as_str()).as_slice()));
                proof {
                    pv = pv + seq!["REC "@ + p@];
                }
            },
            None => {},
        }
        assert(parts@.map_values(|p: String| p@) =~= pv);
        let center = join_parts(&parts, " > ");
        assert(center@ == title_center(self));
        let left = "logq";
        let ll = display_width(left);
        let cl = display_width(center.as_str());
        let remaining = width.saturating_sub(ll).saturating_sub(cl);
        let pl = remaining / 2;
        let pr = remaining - pl;
        let mut spans: Vec<Span> = Vec::new();
        spans.push(Span::styled(left.to_owned(), st));
        if !center.as_str().is_empty() {
            spans.push(Span::styled(space_string(pl), st));
            spans.push(Span::styled(center, st));
            spans.push(Span::styled(space_string(pr), st));
        } else {
            spans.push(Span::styled(space_string(width.saturating_sub(ll)), st));
        }
        proof {
            let c = title_center(self);
            let base = seq![SpanV { content: "logq"@, style: st }] + (if c.len() > 0 {
                seq![
                    SpanV { content: spaces(pl as nat), style: st },
                    SpanV { content: c, style: st },
                    SpanV { content: spaces(pr as nat), style: st },
                ]
            } else {
                seq![SpanV { content: spaces(sat_sub(width as int, ll as int)), style: st }]
            });
            assert(spans_view(spans@) =~= base);
        }
        pad_to(&mut spans, width, st);
        Line { spans }
    }

    /// The status row at `width` columns (see `status_view`).
    pub fn status_line(&mut self, width: usize) -> (r: Line)
        requires
            app_wf(old(self)),
        ensures
            app_wf(final(self)),
            unchanged_but_cache(final(self), old(self)),
            spans_view(r.spans@) == status_view(old(self), width as nat),
    {
        match &self.command_error {
            Some(e) => {
                return error_line(e.as_str(), width);
            },
            None => {},
        }
        let ferr: Option<&FilterError> = if self.filter.live_filter_error.is_some() {
            self.filter.live_filter_error.as_ref()
        } else {
            self.filter.filter_error.as_ref()
        };
        match ferr {
            Some(e) => {
                let m = e.message();
                return error_line(m.as_str(), width);
            },
            None => {},
        }
        let filtered = self.filtered_indices();
        proof {
            crate::classic::lemma_position_of(filtered@, self.selected);
            crate::viewer::lemma_shown_bounds(self);
        }
        let mut parts: Vec<String> = Vec::new();
        let ghost mut pv: Seq<Seq<char>> = seq![];
        match crate::viewer::position_in(&filtered, self.selected) {
            Some(p) => {
                let a = decimal_text(p + 1);
                let b = decimal_text(filtered.len());
                let sa = string_of(a.as_slice());
                let t = concat3(sa.as_str(), "/", string_of(b.as_slice()).as_str());
                parts.push(t);
                proof {
                    pv = seq![decimal((p + 1) as nat) + "/"@ + decimal(filtered@.len())];
                }
            },
            None => {},
        }
        if self.filter.filter_query.is_some() || self.filter.live_filter_query.is_some() {
            let n = decimal_text(self.lines.len());
            let t = concat3(string_of(n.as_slice()).as_str(), " total", "");
            parts.push(t);
            proof {
                pv = pv + seq![decimal(self.lines@.len()) + " total"@];
                assert(""@.len() == 0) by {
                    reveal_strlit("");
                }
            }
        }
        if self.process_exited {
            parts.push("exited".to_owned());
            proof {
                pv = pv + seq!["exited"@];
            }
        }
        match &self.recording {
            Some(p) => {
                parts.push(concat_text("REC ", chars_of(p.as_str()).as_slice()));
                proof {
                    pv = pv + seq!["REC "@ + p@];
                }
            },
            None => {},
        }
        if self.auto_scroll {
            parts.push("FOLLOW".to_owned());
            proof {
                pv = pv + seq!["FOLLOW"@];
            }
        } else {
            parts.push("SCROLL".to_owned());
            proof {
                pv = pv + seq!["SCROLL"@];
            }
        }
        proof {
            assert(parts@.map_values(|p: String| p@) =~= pv);
            assert(pv =~= status_parts(old(self)));
        }
        let t = join_parts(&parts, " │ ");
        let tl: u128 = display_width(t.as_str()) as u128 + 1;
        let pad: usize = if (width as u128) > tl { (width as u128 - tl) as usize } else { 0 };
        let mut spans: Vec<Span> = Vec::new();
        spans.push(Span::styled(concat_text(" ", chars_of(t.as_str()).as_slice()), Style::new().fg(Color::Gray)));
        spans.push(Span::raw(space_string(pad)));
        assert(spans_view(spans@) =~= status_view(old(self), width as nat));
        Line { spans }
    }

    /// The prompt row at `width` columns (see `input_view`).
    pub fn input_line(&self, width: usize) -> (r: Line)
        ensures
            spans_view(r.spans@) == input_view(self, width as nat),
    {
        let typed_st = Style::new().fg(Color::White).bg(Color::DarkGray);
        let typed: String = match &self.filter.filter_input {
            Some(t) => t.value().to_owned(),
            None => String::new(),
        };
        let mut spans: Vec<Span> = Vec::new();
        match &self.command_input {
            Some(t) => {
                spans.push(Span::styled(concat_text(":", chars_of(t.value()).as_slice()), typed_st));
            },
            None => match &self.filter.history_search_pattern {
                Some(p) => {
                    let label = if self.filter.history_search_failed {
                        "(failed reverse-i-search)"
                    } else {
                        "(reverse-i-search)"
                    };
                    let a = concat3(" ", label, "'");
                    let b = concat3(a.as_str(), p.as_str(), "': ");
                    spans.push(Span::styled(b, Style::new().fg(Color::Yellow).bg(Color::DarkGray)));
                    spans.push(Span::styled(typed, typed_st));
                },
                None => {
                    spans.push(Span::styled(concat_text(" ", chars_of(typed.as_str()).as_slice()), typed_st));
                },
            },
        }
        let ghost base = spans_view(spans@);
        let ghost typed_v: Seq<char> = match self.filter@.input {
            Some(v) => v,
            None => seq![],
        };
        assert(typed@ == typed_v);
        assert(base =~= input_base(self));
        pad_to(&mut spans, width, Style::new().bg(Color::DarkGray));
        Line { spans }
    }
}

// ---------------------------------------------------------------------------
// The shortcut bar
// ---------------------------------------------------------------------------

/// A key and its description.
pub open spec fn kd(k: &str, d: &str) -> (Seq<char>, Seq<char>) {
    (k@, d@)
}

/// A column left empty.
pub open spec fn no_item() -> (Seq<char>, Seq<char>) {
    (seq![], seq![])
}

/// The two rows of the shortcut bar: for the command prompt, for the history
/// search, for the filter prompt, or for the list.
pub open spec fn shortcut_table(app: &App) -> (Seq<(Seq<char>, Seq<char>)>, Seq<(Seq<char>, Seq<char>)>) {
    let e = no_item();
    if app.command_input is Some {
        (
            seq![kd("Enter", "Execute"), kd("Esc", "Cancel"), e, e, e, e, e, e],
            seq![kd("^C", "Cancel"), e, e, e, e, e, e, e],
        )
    } else if app.filter@.input is Some {
        if app.filter@.search_pattern is Some {
            (
                seq![kd("^R", "Next match"), kd("^G", "Cancel search"), kd("Enter", "Apply filter"), kd("Esc", "Accept match"), e, e, e, e],
                seq![kd("Bksp", "Delete char"), e, e, e, e, e, e, e],
            )
        } else {
            (
                seq![kd("Enter", "Apply filter"), kd("Up/Dn", "History"), kd("^R", "Search hist"), kd("Esc", "Cancel"), kd("^G", "Cancel search"), e, e, e],
                seq![kd("Bksp", "Delete char"), kd("^C", "Cancel"), e, e, e, e, e, e],
            )
        }
    } else {
        (
            seq![kd("j", "Move down"), kd("k", "Move up"), kd("^E", "Line down"), kd("^Y", "Line up"), kd("^D", "Half pg down"), kd("^U", "Half pg up"), kd("^B", "Full pg up"), kd("^F", "Full pg down")],
            seq![kd("gg", "Jump to top"), kd("G", "Jump to end"), kd("Enter", "Toggle expand"), kd("^O", "Expand all"), kd("/", "Filter lines"), kd(":", "Command"), kd("^X", "Exit logq"), kd("^G", "Help")],
        )
    }
}

/// The keys and descriptions of shortcut items.
pub open spec fn items_view(items: Seq<ShortcutItem>) -> Seq<(Seq<char>, Seq<char>)> {
    items.map_values(|it: ShortcutItem| (it.key@, it.desc@))
}

fn item(key: &'static str, desc: &str) -> (r: ShortcutItem)
    ensures
        r.key == key && r.desc@ == desc@,
{
    ShortcutItem { key, desc: desc.to_owned() }
}

fn blank_item() -> (r: ShortcutItem)
    ensures
        r.key@ == Seq::<char>::empty() && r.desc@ == Seq::<char>::empty(),
{
    proof {
        reveal_strlit("");
    }
    ShortcutItem { key: "", desc: String::new() }
}

/// The wider of two keys, in bytes.
fn key_width(a: &ShortcutItem, b: &ShortcutItem) -> (r: usize)
    ensures
        r == (if a.key.len() >= b.key.len() {
            a.key.len()
        } else {
            b.key.len()
        }),
{
    let x = a.key.len();
    let y = b.key.len();
    if x >= y { x } else { y }
}

impl App {
    /// The two rows of shortcut items for the current mode, the number of
    /// columns, and for each column the longer key's length in bytes.
    pub fn shortcut_items(&self) -> (r: ([ShortcutItem; 8], [ShortcutItem; 8], usize, [usize; 8]))
        ensures
            items_view(r.0@) == shortcut_table(self).0,
            items_view(r.1@) == shortcut_table(self).1,
            r.2 == 8,
            forall|i: int| 0 <= i < 8 ==> #[trigger] r.3@[i] == (if r.0@[i].key.len() >= r.1@[i].key.len() {
                r.0@[i].key.len()
            } else {
                r.1@[i].key.len()
            }),
    {
        let (row1, row2) = if self.command_input.is_some() {
            (
                [item("Enter", "Execute"), item("Esc", "Cancel"), blank_item(), blank_item(), blank_item(), blank_item(), blank_item(), blank_item()],
                [item("^C", "Cancel"), blank_item(), blank_item(), blank_item(), blank_item(), blank_item(), blank_item(), blank_item()],
            )
        } else if self.filter.filter_input.is_some() {
            if self.filter.history_search_pattern.is_some() {
                (
                    [item("^R", "Next match"), item("^G", "Cancel search"), item("Enter", "Apply filter"), item("Esc", "Accept match"), blank_item(), blank_item(), blank_item(), blank_item()],
                    [item("Bksp", "Delete char"), blank_item(), blank_item(), blank_item(), blank_item(), blank_item(), blank_item(), blank_item()],
                )
            } else {
                (
                    [item("Enter", "Apply filter"), item("Up/Dn", "History"), item("^R", "Search hist"), item("Esc", "Cancel"), item("^G", "Cancel search"), blank_item(), blank_item(), blank_item()],
                    [item("Bksp", "Delete char"), item("^C", "Cancel"), blank_item(), blank_item(), blank_item(), blank_item(), blank_item(), blank_item()],
                )
            }
        } else {
            (
                [item("j", "Move down"), item("k", "Move up"), item("^E", "Line down"), item("^Y", "Line up"), item("^D", "Half pg down"), item("^U", "Half pg up"), item("^B", "Full pg up"), item("^F", "Full pg down")],
                [item("gg", "Jump to top"), item("G", "Jump to end"), item("Enter", "Toggle expand"), item("^O", "Expand all"), item("/", "Filter lines"), item(":", "Command"), item("^X", "Exit logq"), item("^G", "Help")],
            )
        };
        let key_widths = [
            key_width(&row1[0], &row2[0]),
            key_width(&row1[1], &row2[1]),
            key_width(&row1[2], &row2[2]),
            key_width(&row1[3], &row2[3]),
            key_width(&row1[4], &row2[4]),
            key_width(&row1[5], &row2[5]),
            key_width(&row1[6], &row2[6]),
            key_width(&row1[7], &row2[7]),
        ];
        proof {
            assert(items_view(row1@) =~= shortcut_table(self).0);
            assert(items_view(row2@) =~= shortcut_table(self).1);
        }
        (row1, row2, 8, key_widths)
    }
}

/// The style of a key on the shortcut bar: reversed.
pub open spec fn key_style() -> Style {
    Style { add_modifier: REVERSED, ..plain_style() }
}

/// Blanks for the columns from `ci` on.
pub open spec fn fill_cols(colw: nat, ncols: nat, ci: nat) -> Seq<SpanV> {
    if ncols > ci {
        seq![SpanV { content: spaces(colw * (ncols - ci) as nat), style: plain_style() }]
    } else {
        seq![]
    }
}

/// One column of the shortcut bar: the key padded to `kw_i` (at most the
/// column width less two), reversed; then a space, the description cut to
/// what is left, and blanks to the end of the column.
pub open spec fn bar_cell(it: (Seq<char>, Seq<char>), kw_i: nat, colw: nat) -> Seq<SpanV> {
    let kw = if kw_i <= sat_sub(colw as int, 2) { kw_i } else { sat_sub(colw as int, 2) };
    let kp = it.0 + spaces(sat_sub(kw as int, it.0.len() as int));
    let da = sat_sub(colw as int, kw + 2int);
    let dt = if da > 0 { truncated(it.1, da) } else { seq![] };
    let pad = sat_sub(sat_sub(colw as int, kw + 1int) as int, str_width(dt) as int);
    seq![
        SpanV { content: kp, style: key_style() },
        SpanV { content: " "@ + dt + spaces(pad), style: plain_style() },
    ]
}

/// The columns of the shortcut bar from item `i` on, `ci` columns being
/// drawn: the first empty key ends the items and blanks fill the rest.
pub open spec fn bar_cells(items: Seq<(Seq<char>, Seq<char>)>, kws: Seq<usize>, colw: nat, ncols: nat, i: int, ci: nat) -> Seq<SpanV>
    decreases items.len() - i,
{
    if i < 0 || i >= items.len() || items[i].0.len() == 0 {
        fill_cols(colw, ncols, ci)
    } else {
        bar_cell(items[i], kws[i] as nat, colw) + bar_cells(items, kws, colw, ncols, i + 1, ci + 1)
    }
}

/// A row of the shortcut bar at `width` columns, in `ncols` equal columns.
pub open spec fn shortcut_bar_view(items: Seq<(Seq<char>, Seq<char>)>, ncols: nat, kws: Seq<usize>, width: nat) -> Seq<SpanV> {
    if ncols == 0 {
        seq![SpanV { content: spaces(width), style: plain_style() }]
    } else {
        padded(bar_cells(items, kws, width / ncols, ncols, 0, 0), width, plain_style())
    }
}

/// One row of the shortcut bar at `width` columns (see `shortcut_bar_view`).
pub fn shortcut_bar_line(items: &[ShortcutItem], num_cols: usize, key_widths: &[usize; 8], width: usize) -> (r: Line)
    requires
        items@.len() <= 8,
    ensures
        spans_view(r.spans@) == shortcut_bar_view(items_view(items@), num_cols as nat, key_widths@, width as nat),
{
    let mut spans: Vec<Span> = Vec::new();
    if num_cols == 0 {
        spans.push(Span::raw(space_string(width)));
        assert(spans_view(spans@) =~= shortcut_bar_view(items_view(items@), num_cols as nat, key_widths@, width as nat));
        return Line { spans };
    }
    let col_width = width / num_cols;
    assert(col_width * num_cols <= width) by (nonlinear_arith)
        requires
            col_width == width / num_cols,
            num_cols > 0,
    ;
    let ghost iv = items_view(items@);
    let ghost goal = bar_cells(iv, key_widths@, col_width as nat, num_cols as nat, 0, 0);
    let key_st = Style::new().add_modifier(REVERSED);
    assert(0u16 | 64u16 == 64u16 && 0u16 & !64u16 == 0u16) by (bit_vector);
    assert(key_st == key_style());
    let mut i: usize = 0;
    let mut col_idx: usize = 0;
    let mut done = false;
    assert(spans_view(spans@) =~= Seq::<SpanV>::empty());
    while i < items.len() && !done
        invariant
            items@.len() <= 8,
            iv == items_view(items@),
            col_width * num_cols <= width,
            num_cols > 0,
            col_width == width / num_cols,
            i <= items@.len(),
            !done ==> col_idx == i,
            key_st == key_style(),
            done ==> spans_view(spans@) == goal,
            !done ==> spans_view(spans@) + bar_cells(iv, key_widths@, col_width as nat, num_cols as nat, i as int, col_idx as nat) == goal,
        decreases items@.len() - i,
    {
        let ghost before = spans_view(spans@);
        let it = &items[i];
        if it.key.is_empty() {
            let remaining = num_cols.saturating_sub(col_idx);
            if remaining > 0 {
                assert(col_width * remaining <= col_width * num_cols) by (nonlinear_arith)
                    requires
                        remaining <= num_cols,
                ;
                let sp = Span::raw(space_string(col_width * remaining));
                spans.push(sp);
                assert(spans_view(spans@) =~= before + fill_cols(col_width as nat, num_cols as nat, col_idx as nat));
            } else {
                assert(spans_view(spans@) =~= before + fill_cols(col_width as nat, num_cols as nat, col_idx as nat));
            }
            done = true;
        } else {
            let kw = if key_widths[i] <= col_width.saturating_sub(2) { key_widths[i] } else { col_width.saturating_sub(2) };
            let key_chars = chars_of(it.key);
            let kpad = space_string(kw.saturating_sub(key_chars.len()));
            let key_padded = concat_text(it.key, chars_of(kpad.as_str()).as_slice());
            let desc_available = col_width.saturating_sub(kw + 2);
            let desc_text: String = if desc_available > 0 {
                crate::render::truncate_str(it.desc.as_str(), desc_available)
            } else {
                String::new()
            };
            let dw = display_width(desc_text.as_str());
            let padding = col_width.saturating_sub(kw + 1).saturating_sub(dw);
            let sp1 = Span::styled(key_padded, key_st);
            let tail = concat3(" ", desc_text.as_str(), space_string(padding).as_str());
            let sp2 = Span::raw(tail);
            spans.push(sp1);
            spans.push(sp2);
            proof {
                assert(iv[i as int] == (it.key@, it.desc@));
                assert(seq![sp1@, sp2@] =~= bar_cell(iv[i as int], key_widths@[i as int] as nat, col_width as nat));
                assert(spans_view(spans@) =~= before + seq![sp1@, sp2@]);
            }
            col_idx = col_idx + 1;
        }
        i = i + 1;
    }
    if !done {
        let ghost before = spans_view(spans@);
        let remaining = num_cols.saturating_sub(col_idx);
        if remaining > 0 {
            assert(col_width * remaining <= col_width * num_cols) by (nonlinear_arith)
                requires
                    remaining <= num_cols,
            ;
            spans.push(Span::raw(space_string(col_width * remaining)));
        }
        assert(spans_view(spans@) =~= before + fill_cols(col_width as nat, num_cols as nat, col_idx as nat));
    }
    assert(spans_view(spans@) == goal);
    pad_to(&mut spans, width, Style::new());
    Line { spans }
}

// ---------------------------------------------------------------------------
// The help screen
// ---------------------------------------------------------------------------

/// The sections of the help screen: a title and the keys with what they do.
pub open spec fn help_sections() -> Seq<(Seq<char>, Seq<(Seq<char>, Seq<char>)>)> {
    seq![
        ("Navigation"@, seq![
            kd("j / Down", "Move down"),
            kd("k / Up", "Move up"),
            kd("G", "Jump to end"),
            kd("gg", "Jump to top"),
            kd("^D", "Half page down"),
            kd("^U", "Half page up"),
            kd("^F", "Full page down"),
            kd("^B", "Full page up"),
            kd("^E", "Scroll one line down"),
            kd("^Y", "Scroll one line up"),
        ]),
        ("View"@, seq![
            kd("Enter", "Toggle expand"),
            kd("^O", "Expand/collapse all"),
            kd("y", "Copy line to clipboard"),
        ]),
        ("Filter"@, seq![
            kd("/", "Start filter input"),
            kd("Esc", "Clear filter"),
            kd("", "Query: |= \"str\" |~ /re/"),
            kd("", "      | key = \"val\""),
            kd("", "      | line_format \"{{ .k }}\""),
        ]),
        ("Other"@, seq![
            kd(":", "Command"),
            kd("^G", "Help"),
            kd("^X", "Exit logq"),
        ]),
    ]
}

/// The style of keys on the help screen: cyan, bold.
pub open spec fn help_key_style() -> Style {
    Style { fg: Some(Color::Cyan), add_modifier: crate::style::BOLD, ..plain_style() }
}

/// The style of section titles: yellow, bold.
pub open spec fn help_section_style() -> Style {
    Style { fg: Some(Color::Yellow), add_modifier: crate::style::BOLD, ..plain_style() }
}

/// The rows of one section: its title, a row per key (the key indented by
/// two and padded to twelve, then its description), and an empty row.
pub open spec fn section_rows(sec: (Seq<char>, Seq<(Seq<char>, Seq<char>)>)) -> Seq<Seq<SpanV>> {
    seq![seq![SpanV { content: sec.0, style: help_section_style() }]] + Seq::new(
        sec.1.len(),
        |j: int|
            seq![
                SpanV { content: "  "@ + sec.1[j].0 + spaces(sat_sub(12, sec.1[j].0.len() as int)), style: help_key_style() },
                SpanV { content: sec.1[j].1, style: plain_style() },
            ],
    ) + seq![seq![]]
}

/// The rows of the sections from `i` on, then the closing hint in dark gray.
pub open spec fn help_rows(secs: Seq<(Seq<char>, Seq<(Seq<char>, Seq<char>)>)>, i: int) -> Seq<Seq<SpanV>>
    decreases secs.len() - i,
{
    if i < 0 || i >= secs.len() {
        seq![seq![SpanV { content: "Press Esc to close"@, style: Style { fg: Some(Color::DarkGray), ..plain_style() } }]]
    } else {
        section_rows(secs[i]) + help_rows(secs, i + 1)
    }
}

/// The largest of the rows' widths (each cut to 16 bits), from row `i` on;
/// 0 when there are none.
pub open spec fn max_row_width(rows: Seq<Seq<SpanV>>, i: int) -> u16
    decreases rows.len() - i,
{
    if i < 0 || i >= rows.len() {
        0
    } else {
        let w = line_width(rows[i]) as u16;
        let m = max_row_width(rows, i + 1);
        if w >= m { w } else { m }
    }
}

/// Where the help box goes on a screen of `area_w` × `area_h` cells for
/// `rows`: as wide as the widest row (at least 40, at most the screen less
/// 4) plus 4, as tall as the rows plus 2, each within the screen, centered.
pub open spec fn help_rect(rows: Seq<Seq<SpanV>>, area_w: u16, area_h: u16) -> (u16, u16, u16, u16) {
    let widest = max_row_width(rows, 0);
    let cw0: u16 = if widest >= 40 { widest } else { 40 };
    let lim = sat_sub(area_w as int, 4);
    let cw: u16 = if cw0 <= lim { cw0 } else { lim as u16 };
    let pw: u16 = if cw + 4 <= area_w { (cw + 4) as u16 } else { area_w };
    let ch = rows.len() as u16;
    let ph: u16 = if ch + 2 <= area_h { (ch + 2) as u16 } else { area_h };
    ((sat_sub(area_w as int, pw as int) / 2) as u16, (sat_sub(area_h as int, ph as int) / 2) as u16, pw, ph)
}

/// The rows of one help section.
fn push_section(out: &mut Vec<Line>, title: &str, keys: &Vec<(&'static str, &'static str)>)
    ensures
        lines_view_of(final(out)@) == lines_view_of(old(out)@) + section_rows((title@, keys@.map_values(|p: (&'static str, &'static str)| (p.0@, p.1@)))),
{
    let ghost kv = keys@.map_values(|p: (&'static str, &'static str)| (p.0@, p.1@));
    let ghost goal = section_rows((title@, kv));
    let ghost o0 = lines_view_of(out@);
    let sec_st = Style::new().fg(Color::Yellow).add_modifier(crate::style::BOLD);
    let key_st = Style::new().fg(Color::Cyan).add_modifier(crate::style::BOLD);
    assert(0u16 | 1u16 == 1u16 && 0u16 & !1u16 == 0u16) by (bit_vector);
    let mut first: Vec<Span> = Vec::new();
    first.push(Span::styled(title.to_owned(), sec_st));
    proof {
        assert(sec_st == help_section_style());
        assert(spans_view(first@) =~= goal[0]);
    }
    out.push(Line { spans: first });
    proof {
        assert(lines_view_of(out@) =~= o0.push(goal[0]));
        assert(goal.subrange(0, 1) =~= seq![goal[0]]);
        assert(o0 + goal.subrange(0, 1) =~= o0.push(goal[0]));
    }
    let mut j: usize = 0;
    while j < keys.len()
        invariant
            j <= keys@.len(),
            kv == keys@.map_values(|p: (&'static str, &'static str)| (p.0@, p.1@)),
            goal == section_rows((title@, kv)),
            key_st == help_key_style(),
            lines_view_of(out@) == o0 + goal.subrange(0, j + 1),
        decreases keys@.len() - j,
    {
        let (k, d) = keys[j];
        let kc = chars_of(k);
        let pad = space_string(12usize.saturating_sub(kc.len()));
        let key_text = concat3("  ", k, pad.as_str());
        let mut row: Vec<Span> = Vec::new();
        row.push(Span::styled(key_text, key_st));
        row.push(Span::raw(d.to_owned()));
        let ghost before = lines_view_of(out@);
        out.push(Line { spans: row });
        proof {
            assert(kv[j as int] == (k@, d@));
            assert(spans_view(row@) =~= goal[j + 1]);
            assert(lines_view_of(out@) =~= before.push(goal[j + 1]));
            assert(goal.subrange(0, j + 2) =~= goal.subrange(0, j + 1).push(goal[j + 1]));
        }
        j = j + 1;
    }
    let ghost before = lines_view_of(out@);
    let blank: Vec<Span> = Vec::new();
    proof {
        assert(spans_view(blank@) =~= Seq::<SpanV>::empty());
        assert(goal[j + 1] =~= Seq::<SpanV>::empty());
    }
    out.push(Line { spans: blank });
    proof {
        assert(lines_view_of(out@) =~= before.push(goal[j + 1]));
        assert(goal.subrange(0, j + 2) =~= goal);
    }
}

/// The values of rows (as `crate::screen::lines_view`).
pub open spec fn lines_view_of(v: Seq<Line>) -> Seq<Seq<SpanV>> {
    crate::screen::lines_view(v)
}

/// The rows of the help screen (see `help_rows`).
pub fn help_lines() -> (r: Vec<Line>)
    ensures
        lines_view_of(r@) == help_rows(help_sections(), 0),
{
    let mut out: Vec<Line> = Vec::new();
    let nav = vec![
        ("j / Down", "Move down"),
        ("k / Up", "Move up"),
        ("G", "Jump to end"),
        ("gg", "Jump to top"),
        ("^D", "Half page down"),
        ("^U", "Half page up"),
        ("^F", "Full page down"),
        ("^B", "Full page up"),
        ("^E", "Scroll one line down"),
        ("^Y", "Scroll one line up"),
    ];
    let view = vec![("Enter", "Toggle expand"), ("^O", "Expand/collapse all"), ("y", "Copy line to clipboard")];
    let filter = vec![
        ("/", "Start filter input"),
        ("Esc", "Clear filter"),
        ("", "Query: |= \"str\" |~ /re/"),
        ("", "      | key = \"val\""),
        ("", "      | line_format \"{{ .k }}\""),
    ];
    let other = vec![(":", "Command"), ("^G", "Help"), ("^X", "Exit logq")];
    let ghost secs = help_sections();
    proof {
        assert(nav@.map_values(|p: (&'static str, &'static str)| (p.0@, p.1@)) =~= secs[0].1);
        assert(view@.map_values(|p: (&'static str, &'static str)| (p.0@, p.1@)) =~= secs[1].1);
        assert(filter@.map_values(|p: (&'static str, &'static str)| (p.0@, p.1@)) =~= secs[2].1);
        assert(other@.map_values(|p: (&'static str, &'static str)| (p.0@, p.1@)) =~= secs[3].1);
    }
    assert(lines_view_of(out@) =~= Seq::<Seq<SpanV>>::empty());
    push_section(&mut out, "Navigation", &nav);
    let ghost v1 = lines_view_of(out@);
    assert(v1 =~= section_rows(secs[0]));
    push_section(&mut out, "View", &view);
    let ghost v2 = lines_view_of(out@);
    assert(v2 == v1 + section_rows(secs[1]));
    push_section(&mut out, "Filter", &filter);
    let ghost v3 = lines_view_of(out@);
    assert(v3 == v2 + section_rows(secs[2]));
    push_section(&mut out, "Other", &other);
    let ghost v4 = lines_view_of(out@);
    assert(v4 == v3 + section_rows(secs[3]));
    let mut last: Vec<Span> = Vec::new();
    last.push(Span::styled("Press Esc to close".to_owned(), Style::new().fg(Color::DarkGray)));
    out.push(Line { spans: last });
    proof {
        let tail = seq![seq![SpanV { content: "Press Esc to close"@, style: Style { fg: Some(Color::DarkGray), ..plain_style() } }]];
        assert(spans_view(last@) =~= tail[0]);
        assert(lines_view_of(out@) =~= v4.push(tail[0]));
        assert(help_rows(secs, 4) == tail);
        assert(help_rows(secs, 3) == section_rows(secs[3]) + tail);
        assert(help_rows(secs, 2) == section_rows(secs[2]) + help_rows(secs, 3));
        assert(help_rows(secs, 1) == section_rows(secs[1]) + help_rows(secs, 2));
        assert(help_rows(secs, 0) == section_rows(secs[0]) + help_rows(secs, 1));
        assert(lines_view_of(out@) =~= help_rows(secs, 0));
    }
    out
}

/// The widest of `rows`, each width cut to 16 bits.
fn widest_row(rows: &Vec<Line>) -> (r: u16)
    ensures
        r == max_row_width(lines_view_of(rows@), 0),
{
    let ghost rv = lines_view_of(rows@);
    let mut m: u16 = 0;
    let mut i: usize = rows.len();
    while i > 0
        invariant
            i <= rows@.len(),
            rv == lines_view_of(rows@),
            m == max_row_width(rv, i as int),
        decreases i,
    {
        i = i - 1;
        let w = spans_width_wide(&rows[i].spans) as u16;
        assert(rv[i as int] == spans_view(rows@[i as int].spans@));
        if w > m {
            m = w;
        }
    }
    m
}

impl App {
    /// The rows of the help screen and where its box goes on a screen of
    /// `area_w` × `area_h` cells (x, y, width, height); the help scroll is
    /// kept within the rows that do not fit inside the box's border.
    pub fn help_layout(&mut self, area_w: u16, area_h: u16) -> (r: (Vec<Line>, (u16, u16, u16, u16)))
        ensures
            lines_view_of(r.0@) == help_rows(help_sections(), 0),
            r.1 == help_rect(help_rows(help_sections(), 0), area_w, area_h),
            final(self).help_scroll == ({
                let ch = help_rows(help_sections(), 0).len() as u16;
                let inner = sat_sub(r.1.3 as int, 2);
                let max_scroll = sat_sub(ch as int, inner as int);
                if old(self).help_scroll <= max_scroll { old(self).help_scroll } else { max_scroll as u16 }
            }),
            *final(self) == (App { help_scroll: final(self).help_scroll, ..*old(self) }),
    {
        let lines = help_lines();
        let widest = widest_row(&lines);
        let cw0: u16 = if widest >= 40 { widest } else { 40 };
        let lim = area_w.saturating_sub(4);
        let cw: u16 = if cw0 <= lim { cw0 } else { lim };
        let pw: u16 = if (cw as u32) + 4 <= area_w as u32 { cw + 4 } else { area_w };
        let ch = lines.len() as u16;
        let ph: u16 = if (ch as u32) + 2 <= area_h as u32 { ch + 2 } else { area_h };
        let x = area_w.saturating_sub(pw) / 2;
        let y = area_h.saturating_sub(ph) / 2;
        let inner = ph.saturating_sub(2);
        let max_scroll = ch.saturating_sub(inner);
        if self.help_scroll > max_scroll {
            self.help_scroll = max_scroll;
        }
        (lines, (x, y, pw, ph))
    }
}

impl App {
    /// The column of the cursor on the prompt row: during a history search,
    /// after the label, the quote and the pattern; else after `:` and a
    /// space and the command's cursor; else after the leading space and the
    /// query's cursor.
    /// The sum is cut to 16 bits.
    pub fn input_cursor_x(&self) -> (r: u16)
        ensures
            self.filter@.search_pattern matches Some(p) ==> r == ((1 + str_width(search_label(self.filter@.search_failed))
                + 1 + str_width(p)) as u16),
    {
        match &self.filter.history_search_pattern {
            Some(p) => {
                let label = if self.filter.history_search_failed {
                    "(failed reverse-i-search)"
                } else {
                    "(reverse-i-search)"
                };
                let x: u128 = 1 + display_width(label) as u128 + 1 + display_width(p.as_str()) as u128;
                return x as u16;
            },
            None => {},
        }
        match &self.command_input {
            Some(t) => ((2 + t.visual_cursor() as u128) as u16),
            None => match &self.filter.filter_input {
                Some(t) => ((1 + t.visual_cursor() as u128) as u16),
                None => 1,
            },
        }
    }
}

} // verus!
