//! What the two-view viewer draws, as styled rows: the breadcrumb, the list,
//! the prompt row and the two help rows.
use vstd::prelude::*;
use crate::chrome::{joined, sat_sub};
use crate::classic::{App, ViewMode, app_wf, auto_scrolled, byte_truncated, shown, truncate_str};
use crate::filter::{error_text, query_display};
use crate::highlight::{fg_style, highlight_line, highlighted_view};
use crate::render::{apply_selected_style, display_line_view, highlight_display_line, overlaid, selected_overlay};
use crate::screen::{lines_view, space_string, spaces};
use crate::style::{Color, Line, Span, SpanV, Style, Text, plain_style, spans_view, text_view};
use crate::text::{chars_of, concat_text};
use crate::viewer::TIMESTAMP_WIDTH;
use vstd::string::StringSliceAdditionalSpecFns;
use vstd::utf8::encode_utf8;

verus! {

/// The style of the breadcrumb: cyan on dark gray.
pub open spec fn crumb_style() -> Style {
    Style { fg: Some(Color::Cyan), bg: Some(Color::DarkGray), ..plain_style() }
}

/// The breadcrumb: the applied query and, in the detail view, `[detail]`,
/// joined by ` > `; nothing when there is neither.
pub open spec fn breadcrumb_view(app: &App) -> Option<Seq<SpanV>> {
    let q: Seq<Seq<char>> = match app@.query {
        Some(q) => seq!["[filter: "@ + query_display(q) + "]"@],
        None => seq![],
    };
    let d: Seq<Seq<char>> = if app.view_mode == ViewMode::Detail { seq!["[detail]"@] } else { seq![] };
    let parts = q + d;
    if parts.len() == 0 {
        None
    } else {
        Some(seq![SpanV { content: joined(parts, " > "@), style: crumb_style() }])
    }
}

/// The row of line `idx` at content width `cw`: its timestamp in dark gray,
/// then its text cut to `cw` bytes and colored, in the selection style when
/// it is selected.
pub open spec fn classic_row(app: &App, idx: int, cw: nat) -> Seq<SpanV> {
    let e = app.lines@[idx];
    let dl = display_line_view(byte_truncated(e.text@, cw as int), app.colors);
    seq![SpanV { content: e.timestamp@ + seq![' '], style: fg_style(Color::DarkGray) }] + (if idx == app.selected {
        overlaid(dl, selected_overlay())
    } else {
        dl
    })
}

/// The rows of the list view `vh` rows tall: the shown lines from the scroll
/// position on.
pub open spec fn classic_list_view(app: &App, vh: nat, cw: nat) -> Seq<Seq<SpanV>> {
    let f = shown(app);
    let start = app.scroll_offset as int;
    let end = if start + vh < f.len() { start + vh } else { f.len() as int };
    Seq::new(sat_sub(end, start), |k: int| classic_row(app, f[start + k] as int, cw))
}

/// The length in bytes of the UTF-8 encoding of `s`, as a machine word.
pub open spec fn byte_len(s: Seq<char>) -> usize {
    encode_utf8(s).len() as usize
}

/// The style of the prompt and help rows: white on dark gray.
pub open spec fn bar_style() -> Style {
    Style { fg: Some(Color::White), bg: Some(Color::DarkGray), ..plain_style() }
}

/// The prompt row at `width` columns: the typed text, the error of the query
/// (the one of the text being typed first), and dark gray blanks up to the
/// width counted in bytes.
pub open spec fn classic_input_view(app: &App, width: nat) -> Seq<SpanV> {
    let typed: Seq<char> = match app@.input {
        Some(v) => v,
        None => seq![],
    };
    let first = SpanV { content: " "@ + typed, style: bar_style() };
    let base = match (if app@.live_error is Some { app@.live_error } else { app@.error }) {
        Some(e) => seq![first, SpanV {
            content: "  Error: "@ + error_text(e),
            style: Style { fg: Some(Color::Red), bg: Some(Color::DarkGray), ..plain_style() },
        }],
        None => seq![first],
    };
    let left: int = if base.len() == 2 { byte_len(base[0].content) + byte_len(base[1].content) } else { byte_len(base[0].content) as int };
    let pad = sat_sub(width as int, left);
    if pad > 0 {
        base.push(SpanV { content: spaces(pad), style: Style { bg: Some(Color::DarkGray), ..plain_style() } })
    } else {
        base
    }
}

/// The text of the first help row.
pub open spec fn help_text1(app: &App) -> Seq<char> {
    match app.view_mode {
        ViewMode::List => if app@.input is Some {
            if app.history_search_active {
                " C-r:next  Enter:apply  Esc:cancel"@
            } else {
                " Enter:apply  ↑↓:history  C-r:search  Esc:cancel"@
            }
        } else {
            " j/k nav  Enter detail  / filter  G latest  Esc clear"@
        },
        ViewMode::Detail => " q/Bksp/Esc back  j/k scroll"@,
    }
}

/// The text of the second help row.
pub open spec fn help_text2(app: &App) -> Seq<char> {
    if app.view_mode == ViewMode::List && app@.input is Some {
        " Bksp delete  C-c:cancel  syntax: |= \"text\"  |~ /regex/  != !~  | key = !=  and/or ()"@
    } else {
        " C-d/u half  C-f/b full  C-e/y line  C-x quit"@
    }
}

/// A help row at `width` columns: the text, then dark gray blanks up to the
/// width counted in bytes.
pub open spec fn help_row(text: Seq<char>, width: nat) -> Seq<SpanV> {
    seq![
        SpanV { content: text, style: bar_style() },
        SpanV { content: spaces(sat_sub(width as int, byte_len(text) as int)), style: Style { bg: Some(Color::DarkGray), ..plain_style() } },
    ]
}

/// A help row for `text`.
fn help_line(text: &str, width: usize) -> (r: Line)
    ensures
        spans_view(r.spans@) == help_row(text@, width as nat),
{
    let n = text.len();
    let pad = width.saturating_sub(n);
    let mut spans: Vec<Span> = Vec::new();
    spans.push(Span::styled(text.to_owned(), Style::new().fg(Color::White).bg(Color::DarkGray)));
    spans.push(Span::styled(space_string(pad), Style::new().bg(Color::DarkGray)));
    assert(spans_view(spans@) =~= help_row(text@, width as nat));
    Line { spans }
}

impl App {
    /// The breadcrumb (see `breadcrumb_view`).
    pub fn breadcrumb_line(&self) -> (r: Option<Line>)
        requires
            app_wf(self),
        ensures
            match r {
                Some(l) => breadcrumb_view(self) == Some(spans_view(l.spans@)),
                None => breadcrumb_view(self) is None,
            },
    {
        let mut parts: Vec<String> = Vec::new();
        let ghost mut pv: Seq<Seq<char>> = seq![];
        match &self.filter_query {
            Some(q) => {
                let d = q.display_string();
                let a = concat_text("[filter: ", chars_of(d.as_str()).as_slice());
                parts.push(concat_text(a.as_str(), &[']']));
                proof {
                    assert([']']@ =~= "]"@) by {
                        reveal_strlit("]");
                    }
                    pv = seq!["[filter: "@ + query_display(q@) + "]"@];
                }
            },
            None => {},
        }
        if self.view_mode == ViewMode::Detail {
            parts.push("[detail]".to_owned());
            proof {
                pv = pv + seq!["[detail]"@];
            }
        }
        assert(parts@.map_values(|p: String| p@) =~= pv);
        if parts.len() == 0 {
            return None;
        }
        let text = crate::chrome::join_parts(&parts, " > ");
        let mut spans: Vec<Span> = Vec::new();
        spans.push(Span::styled(text, Style::new().fg(Color::Cyan).bg(Color::DarkGray)));
        assert(spans_view(spans@) =~= seq![SpanV { content: joined(pv, " > "@), style: crumb_style() }]);
        Some(Line { spans })
    }

    /// The rows of the list view in a view `width` columns wide and `height`
    /// rows tall: auto-scroll first follows the newest line, the scroll
    /// position is kept within the shown lines, and the rows from it on are
    /// drawn.
    pub fn list_rows(&mut self, width: usize, height: usize) -> (r: Vec<Line>)
        requires
            app_wf(old(self)),
        ensures
            app_wf(final(self)),
            ({
                let mid = auto_scrolled(old(self)@, height as int);
                let n = shown(old(self)).len();
                let max_off = sat_sub(n as int, height as int);
                final(self)@ == (crate::classic::ClassicV {
                    scroll_offset: if mid.scroll_offset <= max_off { mid.scroll_offset } else { max_off as usize },
                    ..mid
                })
            }),
            final(self).lines == old(self).lines && final(self).colors == old(self).colors,
            lines_view(r@) == classic_list_view(final(self), height as nat, sat_sub(width as int, TIMESTAMP_WIDTH as int)),
    {
        let filtered = self.filtered_indices();
        let ghost s1 = *self;
        self.update_auto_scroll(height);
        proof {
            assert(shown(self) == shown(&s1));
        }
        let n = filtered.len();
        let max_off = n.saturating_sub(height);
        if self.scroll_offset > max_off {
            let ghost s2 = *self;
            self.scroll_offset = max_off;
            proof {
                assert(self@.lines == s2@.lines);
                assert(shown(self) == shown(&s2));
                assert(app_wf(self));
            }
        }
        proof {
            crate::classic::lemma_passing_bounds(self@.lines, Seq::empty(), 0);
        }
        let cw = width.saturating_sub(TIMESTAMP_WIDTH);
        let start = self.scroll_offset;
        let end = if start < n && height < n - start { start + height } else { n };
        let mut out: Vec<Line> = Vec::new();
        let mut pos = start;
        let ghost f = filtered@;
        proof {
            crate::classic::lemma_shown_bounds(self);
        }
        while pos < end
            invariant
                f == filtered@,
                f == shown(self),
                forall|j: int| 0 <= j < f.len() ==> #[trigger] f[j] < self.lines@.len(),
                start <= pos <= end <= f.len(),
                start == self.scroll_offset,
                lines_view(out@) == Seq::new((pos - start) as nat, |k: int| classic_row(self, f[start + k] as int, cw as nat)),
            decreases end - pos,
        {
            let idx = filtered[pos];
            let e = &self.lines[idx];
            let ts = concat_text(e.timestamp.as_str(), &[' ']);
            let mut spans: Vec<Span> = Vec::new();
            spans.push(Span::styled(ts, Style::new().fg(Color::DarkGray)));
            let display = truncate_str(e.text.as_str(), cw);
            let dl = highlight_display_line(display.as_str(), &self.colors, idx == self.selected);
            let body = if idx == self.selected { apply_selected_style(dl) } else { dl };
            let ghost head = spans_view(spans@);
            let mut k: usize = 0;
            let ghost bv = spans_view(body@);
            while k < body.len()
                invariant
                    k <= body@.len(),
                    bv == spans_view(body@),
                    spans_view(spans@) == head + bv.subrange(0, k as int),
                decreases body@.len() - k,
            {
                let sp = Span::styled(body[k].content.clone(), body[k].style);
                let ghost before = spans_view(spans@);
                spans.push(sp);
                proof {
                    assert(spans_view(spans@) =~= before.push(bv[k as int]));
                    assert(bv.subrange(0, k + 1) =~= bv.subrange(0, k as int).push(bv[k as int]));
                }
                k = k + 1;
            }
            let ghost before = lines_view(out@);
            out.push(Line { spans });
            proof {
                assert(seq![' '] =~= [' ']@);
                assert(bv.subrange(0, k as int) =~= bv);
                assert(spans_view(out@[out@.len() - 1].spans@) =~= classic_row(self, f[pos as int] as int, cw as nat));
                assert(lines_view(out@) =~= before.push(classic_row(self, f[pos as int] as int, cw as nat)));
                assert(lines_view(out@) =~= Seq::new((pos + 1 - start) as nat, |k: int| classic_row(self, f[start + k] as int, cw as nat)));
            }
            pos = pos + 1;
        }
        proof {
            assert(lines_view(out@) =~= classic_list_view(self, height as nat, cw as nat));
        }
        out
    }

    /// The text of the detail view: the selected line highlighted, or
    /// nothing when no line is selected.
    pub fn detail_text(&self) -> (r: Option<Text>)
        ensures
            match r {
                Some(t) => self.selected < self.lines@.len() && text_view(t) == highlighted_view(self.lines@[self.selected as int].text@, self.colors),
                None => self.selected >= self.lines@.len(),
            },
    {
        if self.selected >= self.lines.len() {
            return None;
        }
        Some(highlight_line(self.lines[self.selected].text.as_str(), &self.colors))
    }

    /// The prompt row at `width` columns (see `classic_input_view`).
    pub fn input_line(&self, width: usize) -> (r: Line)
        ensures
            spans_view(r.spans@) == classic_input_view(self, width as nat),
    {
        let typed: String = match &self.filter_input {
            Some(t) => t.clone(),
            None => String::new(),
        };
        let first = concat_text(" ", chars_of(typed.as_str()).as_slice());
        let mut left: u128 = first.as_str().len() as u128;
        let mut spans: Vec<Span> = Vec::new();
        spans.push(Span::styled(first, Style::new().fg(Color::White).bg(Color::DarkGray)));
        let err = if self.live_filter_error.is_some() {
            self.live_filter_error.as_ref()
        } else {
            self.filter_error.as_ref()
        };
        match err {
            Some(e) => {
                let m = e.message();
                let t = concat_text("  Error: ", chars_of(m.as_str()).as_slice());
                left = left + t.as_str().len() as u128;
                spans.push(Span::styled(t, Style::new().fg(Color::Red).bg(Color::DarkGray)));
            },
            None => {},
        }
        let ghost base = spans_view(spans@);
        proof {
            let typed_v: Seq<char> = match self@.input {
                Some(v) => v,
                None => seq![],
            };
            assert(typed@ == typed_v);
        }
        if left < width as u128 {
            let sp = Span::styled(space_string((width as u128 - left) as usize), Style::new().bg(Color::DarkGray));
            spans.push(sp);
            assert(spans_view(spans@) =~= base.push(sp@));
        }
        Line { spans }
    }

    /// The two help rows at `width` columns.
    pub fn help_lines(&self, width: usize) -> (r: (Line, Line))
        ensures
            spans_view(r.0.spans@) == help_row(help_text1(self), width as nat),
            spans_view(r.1.spans@) == help_row(help_text2(self), width as nat),
    {
        let t1 = match self.view_mode {
            ViewMode::List => if self.filter_input.is_some() {
                if self.history_search_active {
                    " C-r:next  Enter:apply  Esc:cancel"
                } else {
                    " Enter:apply  ↑↓:history  C-r:search  Esc:cancel"
                }
            } else {
                " j/k nav  Enter detail  / filter  G latest  Esc clear"
            },
            ViewMode::Detail => " q/Bksp/Esc back  j/k scroll",
        };
        let t2 = if self.view_mode == ViewMode::List && self.filter_input.is_some() {
            " Bksp delete  C-c:cancel  syntax: |= \"text\"  |~ /regex/  != !~  | key = !=  and/or ()"
        } else {
            " C-d/u half  C-f/b full  C-e/y line  C-x quit"
        };
        (help_line(t1, width), help_line(t2, width))
    }

    /// The column of the cursor on the prompt row: after the leading space
    /// and the typed text, counted in bytes (cut to 16 bits).
    pub fn input_cursor_x(&self) -> (r: u16)
        ensures
            r == ((1 + byte_len(match self@.input {
                Some(v) => v,
                None => seq![],
            })) as u16),
    {
        let n: usize = match &self.filter_input {
            Some(t) => t.as_str().len(),
            None => 0,
        };
        ((1 + n as u128) as u16)
    }
}

} // verus!
