//! What the viewer draws, as styled rows: the list of lines with their
//! timestamps, cut and wrapped to the screen.
use vstd::prelude::*;
use crate::filter_state::{LogEntry, stderr_prefix, system_prefix};
use crate::highlight::{fg_style, highlight_line, highlighted_view};
use crate::input::LineSource;
use crate::render::{
    display_line_view, fit_to_width, highlight_display_line, apply_selected_style, overlaid,
    rows_view, selected_overlay, str_width, truncated, wrap_line, wrapped_rows,
};
use crate::style::{Color, Line, Span, SpanV, Style, plain_style, spans_view};
use crate::viewer::{
    App, TIMESTAMP_WIDTH, app_wf, display_text, expanded_at, lemma_prefix_sums_len,
    lemma_prefix_sums_mono, lemma_shown_bounds, prefix_sums, row_heights, shown, to_usize,
};

verus! {

/// `n` spaces.
pub open spec fn spaces(n: nat) -> Seq<char> {
    Seq::new(n, |i: int| ' ')
}

/// A string of `n` spaces.
pub fn space_string(n: usize) -> (r: String)
    ensures
        r@ == spaces(n as nat),
{
    let mut v: Vec<char> = Vec::new();
    let mut i: usize = 0;
    while i < n
        invariant
            i <= n,
            v@ == spaces(i as nat),
        decreases n - i,
    {
        v.push(' ');
        i = i + 1;
        assert(v@ =~= spaces(i as nat));
    }
    crate::text::string_of(v.as_slice())
}

/// The values of rows.
pub open spec fn lines_view(v: Seq<Line>) -> Seq<Seq<SpanV>> {
    v.map_values(|l: Line| spans_view(l.spans@))
}

/// The label before a line and its style, by where the line came from.
pub open spec fn prefix_view(e: LogEntry) -> Seq<SpanV> {
    match e.source {
        LineSource::Stdout => seq![],
        LineSource::Stderr => seq![SpanV { content: stderr_prefix(), style: fg_style(Color::Red) }],
        LineSource::System => seq![SpanV { content: system_prefix(), style: fg_style(Color::Yellow) }],
    }
}

/// The columns the label takes.
pub open spec fn prefix_width(e: LogEntry) -> nat {
    match e.source {
        LineSource::Stdout => 0,
        LineSource::Stderr => 9,
        LineSource::System => 7,
    }
}

/// What starts the first row of a line: its timestamp and a space, in dark
/// gray, then its label.
pub open spec fn lead_view(e: LogEntry) -> Seq<SpanV> {
    seq![SpanV { content: e.timestamp@ + seq![' '], style: fg_style(Color::DarkGray) }] + prefix_view(e)
}

/// What starts every further row: blanks as wide as a timestamp.
pub open spec fn pad_view() -> Seq<SpanV> {
    seq![SpanV { content: spaces(TIMESTAMP_WIDTH as nat), style: plain_style() }]
}

/// The text of a collapsed line cut to `max` columns; nothing when there is
/// no column for text that takes some.
pub open spec fn collapsed_text(s: Seq<char>, max: nat) -> Seq<char> {
    if max == 0 && str_width(s) > 0 {
        seq![]
    } else {
        truncated(s, max)
    }
}

/// The rows of one highlighted line cut into `parts` at the content width
/// `cw`: the first row of the first line starts with `lead`, the others with
/// `pad`; a selected line is drawn in the selection style, and an empty line
/// of a selected entry is a dark gray bar.
pub open spec fn hl_line_rows(
    parts: Seq<Seq<SpanV>>,
    first: bool,
    lead: Seq<SpanV>,
    sel: bool,
    cw: nat,
) -> Seq<Seq<SpanV>> {
    if parts.len() == 0 {
        seq![(if first { lead } else { pad_view() }) + (if sel {
            seq![SpanV { content: spaces(cw), style: Style { bg: Some(Color::DarkGray), ..plain_style() } }]
        } else {
            seq![]
        })]
    } else {
        Seq::new(
            parts.len(),
            |j: int|
                (if first && j == 0 { lead } else { pad_view() }) + (if sel {
                    overlaid(parts[j], selected_overlay())
                } else {
                    parts[j]
                }),
        )
    }
}

/// The rows of the highlighted lines `hl[i..]` of an expanded entry.
pub open spec fn expanded_rows(hl: Seq<Seq<SpanV>>, i: int, lead: Seq<SpanV>, sel: bool, cw: nat) -> Seq<Seq<SpanV>>
    decreases hl.len() - i,
{
    if i < 0 || i >= hl.len() {
        seq![]
    } else {
        hl_line_rows(wrapped_rows(hl[i], cw), i == 0, lead, sel, cw) + expanded_rows(hl, i + 1, lead, sel, cw)
    }
}

/// All the rows of line `idx` at content width `cw`: an expanded line shows
/// its highlighted text wrapped; a collapsed one a single row, its text cut
/// to the columns left after the label.
pub open spec fn entry_rows(app: &App, idx: int, cw: nat) -> Seq<Seq<SpanV>> {
    let e = app.lines@[idx];
    let sel = idx == app.selected;
    let lead = lead_view(e);
    let text = display_text(app, idx);
    if expanded_at(app, idx) {
        expanded_rows(highlighted_view(text, app.colors), 0, lead, sel, cw)
    } else {
        let max: nat = if cw >= prefix_width(e) { (cw - prefix_width(e)) as nat } else { 0 };
        let dl = display_line_view(collapsed_text(text, max), app.colors);
        seq![lead + (if sel { overlaid(dl, selected_overlay()) } else { dl })]
    }
}

/// The rows drawn for the shown lines from position `pos` on, with `ps` the
/// running totals of their heights, the view starting at row `offset` and
/// `vh` rows tall, `remaining` of them still free: lines wholly above the
/// view are passed over, the first line below it ends the list, and a line
/// that starts above the view loses its rows above it.
pub open spec fn list_rows_from(
    app: &App,
    f: Seq<usize>,
    ps: Seq<usize>,
    cw: nat,
    pos: int,
    offset: int,
    vh: int,
    remaining: int,
) -> Seq<Seq<SpanV>>
    decreases f.len() - pos,
{
    if remaining <= 0 || pos < 0 || pos >= f.len() {
        seq![]
    } else if ps[pos + 1] <= offset {
        list_rows_from(app, f, ps, cw, pos + 1, offset, vh, remaining)
    } else if ps[pos] >= offset + vh {
        seq![]
    } else {
        let skip = if offset > ps[pos] { offset - ps[pos] } else { 0 };
        let all = entry_rows(app, f[pos] as int, cw);
        let after = if skip <= all.len() { all.subrange(skip, all.len() as int) } else { seq![] };
        let rows = if after.len() <= remaining { after } else { after.subrange(0, remaining) };
        rows + list_rows_from(app, f, ps, cw, pos + 1, offset, vh, remaining - rows.len())
    }
}

/// The rows of the list view of `app`, `vh` rows tall at content width `cw`.
pub open spec fn list_view(app: &App, vh: nat, cw: nat) -> Seq<Seq<SpanV>> {
    list_rows_from(app, shown(app), prefix_sums(row_heights(app, cw)), cw, 0, app.scroll_offset as int, vh as int, vh as int)
}

/// Lines that end at or above the view are passed over without a trace.
pub proof fn lemma_list_rows_skip(
    app: &App,
    f: Seq<usize>,
    ps: Seq<usize>,
    cw: nat,
    j: int,
    k: int,
    offset: int,
    vh: int,
    remaining: int,
)
    requires
        0 <= j <= k < ps.len(),
        ps.len() == f.len() + 1,
        ps[k] <= offset,
        forall|a: int, b: int| 0 <= a <= b < ps.len() ==> ps[a] <= ps[b],
        remaining > 0,
    ensures
        list_rows_from(app, f, ps, cw, j, offset, vh, remaining) == list_rows_from(app, f, ps, cw, k, offset, vh, remaining),
    decreases k - j,
{
    if j < k {
        assert(ps[j + 1] <= ps[k]);
        lemma_list_rows_skip(app, f, ps, cw, j + 1, k, offset, vh, remaining);
    }
}

/// The list never draws more rows than are free.
pub proof fn lemma_list_rows_fit(
    app: &App,
    f: Seq<usize>,
    ps: Seq<usize>,
    cw: nat,
    pos: int,
    offset: int,
    vh: int,
    remaining: int,
)
    ensures
        list_rows_from(app, f, ps, cw, pos, offset, vh, remaining).len() <= (if remaining > 0 { remaining } else { 0 }),
    decreases f.len() - pos,
{
    if remaining <= 0 || pos < 0 || pos >= f.len() {
    } else if ps[pos + 1] <= offset {
        lemma_list_rows_fit(app, f, ps, cw, pos + 1, offset, vh, remaining);
    } else if ps[pos] >= offset + vh {
    } else {
        let skip = if offset > ps[pos] { offset - ps[pos] } else { 0 };
        let all = entry_rows(app, f[pos] as int, cw);
        let after = if skip <= all.len() { all.subrange(skip, all.len() as int) } else { seq![] };
        let rows = if after.len() <= remaining { after } else { after.subrange(0, remaining) };
        lemma_list_rows_fit(app, f, ps, cw, pos + 1, offset, vh, remaining - rows.len());
    }
}

/// A row made of the spans `a` then `b`.
fn join_spans(a: &Vec<Span>, b: Vec<Span>) -> (r: Vec<Span>)
    ensures
        spans_view(r@) == spans_view(a@) + spans_view(b@),
{
    let mut out = crate::render::copy_spans(a);
    let mut i: usize = 0;
    let ghost start = spans_view(out@);
    while i < b.len()
        invariant
            i <= b@.len(),
            spans_view(out@) == start + spans_view(b@).subrange(0, i as int),
        decreases b@.len() - i,
    {
        let ghost before = spans_view(out@);
        let sp = Span::styled(b[i].content.clone(), b[i].style);
        out.push(sp);
        proof {
            assert(spans_view(out@) =~= before.push(sp@));
            assert(spans_view(b@).subrange(0, i + 1) =~= spans_view(b@).subrange(0, i as int).push(b@[i as int]@));
        }
        i = i + 1;
    }
    assert(spans_view(b@).subrange(0, i as int) =~= spans_view(b@));
    out
}

impl LogEntry {
    /// The spans that start the first row of this line: timestamp and label.
    pub fn lead_spans(&self) -> (r: Vec<Span>)
        ensures
            spans_view(r@) == lead_view(*self),
    {
        let ts = crate::text::concat_text(self.timestamp.as_str(), &[' ']);
        let ts_span = Span::styled(ts, Style::new().fg(Color::DarkGray));
        let mut out: Vec<Span> = Vec::new();
        out.push(ts_span);
        let (p, w, st) = self.source_prefix();
        if w > 0 {
            out.push(Span::styled(p.to_owned(), st));
        }
        proof {
            assert(seq![' '] =~= [' ']@);
            assert(spans_view(out@) =~= lead_view(*self));
        }
        out
    }
}

/// The spans that start every further row.
fn pad_spans() -> (r: Vec<Span>)
    ensures
        spans_view(r@) == pad_view(),
{
    let mut out: Vec<Span> = Vec::new();
    out.push(Span::raw(space_string(TIMESTAMP_WIDTH)));
    assert(spans_view(out@) =~= pad_view());
    out
}

/// The rows of one highlighted line (see `hl_line_rows`).
fn line_rows(parts: Vec<Vec<Span>>, first: bool, lead: &Vec<Span>, sel: bool, cw: usize) -> (r: Vec<Line>)
    ensures
        lines_view(r@) == hl_line_rows(rows_view(parts@), first, spans_view(lead@), sel, cw as nat),
{
    let mut out: Vec<Line> = Vec::new();
    let pad = pad_spans();
    if parts.len() == 0 {
        let mut tail: Vec<Span> = Vec::new();
        if sel {
            tail.push(Span::styled(space_string(cw), Style::new().bg(Color::DarkGray)));
        }
        let row = if first { join_spans(lead, tail) } else { join_spans(&pad, tail) };
        out.push(Line { spans: row });
        proof {
            assert(rows_view(parts@).len() == 0);
            let tv: Seq<SpanV> = if sel {
                seq![SpanV { content: spaces(cw as nat), style: Style { bg: Some(Color::DarkGray), ..plain_style() } }]
            } else {
                seq![]
            };
            assert(spans_view(tail@) =~= tv);
            assert(lines_view(out@) =~= hl_line_rows(rows_view(parts@), first, spans_view(lead@), sel, cw as nat));
        }
        return out;
    }
    let ghost pv = rows_view(parts@);
    let ghost goal = hl_line_rows(pv, first, spans_view(lead@), sel, cw as nat);
    let mut j: usize = 0;
    let n = parts.len();
    while j < n
        invariant
            n == pv.len() == parts@.len(),
            pv == rows_view(parts@),
            n > 0,
            j <= n,
            lines_view(out@) == goal.subrange(0, j as int),
            goal == hl_line_rows(pv, first, spans_view(lead@), sel, cw as nat),
            spans_view(pad@) == pad_view(),
        decreases n - j,
    {
        let part = crate::render::copy_spans(&parts[j]);
        proof {
            assert(spans_view(part@) == pv[j as int]);
        }
        let body = if sel { apply_selected_style(part) } else { part };
        let row = if first && j == 0 { join_spans(lead, body) } else { join_spans(&pad, body) };
        let ghost before = lines_view(out@);
        out.push(Line { spans: row });
        proof {
            assert(lines_view(out@) =~= before.push(goal[j as int]));
            assert(goal.subrange(0, j + 1) =~= goal.subrange(0, j as int).push(goal[j as int]));
        }
        j = j + 1;
    }
    assert(goal.subrange(0, j as int) =~= goal);
    out
}

/// `a` followed by the rows of `b`.
fn append_lines(a: &mut Vec<Line>, b: &Vec<Line>)
    ensures
        lines_view(final(a)@) == lines_view(old(a)@) + lines_view(b@),
{
    let n = b.len();
    let ghost bv = lines_view(b@);
    let ghost a0 = lines_view(a@);
    let mut i: usize = 0;
    while i < n
        invariant
            n == bv.len() == b@.len(),
            bv == lines_view(b@),
            i <= n,
            lines_view(a@) == a0 + bv.subrange(0, i as int),
        decreases n - i,
    {
        let l = Line { spans: crate::render::copy_spans(&b[i].spans) };
        let ghost before = lines_view(a@);
        a.push(l);
        proof {
            assert(lines_view(a@) =~= before.push(bv[i as int]));
            assert(bv.subrange(0, i + 1) =~= bv.subrange(0, i as int).push(bv[i as int]));
        }
        i = i + 1;
    }
    assert(bv.subrange(0, i as int) =~= bv);
}

impl App {
    /// All the rows of line `idx` at content width `cw` (see `entry_rows`).
    pub fn entry_rows_for(&self, idx: usize, cw: usize) -> (r: Vec<Line>)
        requires
            idx < self.lines@.len(),
        ensures
            lines_view(r@) == entry_rows(self, idx as int, cw as nat),
    {
        let e = &self.lines[idx];
        let sel = idx == self.selected;
        let lead = e.lead_spans();
        let text = self.display_text_for(idx);
        let mut out: Vec<Line> = Vec::new();
        if self.is_expanded(idx) {
            let hl = highlight_line(text.as_str(), &self.colors);
            let ghost hv = highlighted_view(text@, self.colors);
            let ghost lv = spans_view(lead@);
            let mut i: usize = 0;
            assert(lines_view(out@) =~= Seq::<Seq<SpanV>>::empty());
            while i < hl.lines.len()
                invariant
                    hv == crate::style::text_view(hl),
                    i <= hv.len(),
                    lines_view(out@) + expanded_rows(hv, i as int, lv, sel, cw as nat) == expanded_rows(hv, 0, lv, sel, cw as nat),
                    lv == spans_view(lead@),
                decreases hv.len() - i,
            {
                let parts = wrap_line(&hl.lines[i], cw);
                assert(spans_view(hl.lines@[i as int].spans@) == hv[i as int]);
                let rows = line_rows(parts, i == 0, &lead, sel, cw);
                let ghost before = lines_view(out@);
                append_lines(&mut out, &rows);
                proof {
                    assert(expanded_rows(hv, i as int, lv, sel, cw as nat) == lines_view(rows@) + expanded_rows(hv, i + 1, lv, sel, cw as nat));
                    assert(lines_view(out@) + expanded_rows(hv, i + 1, lv, sel, cw as nat) =~= before + expanded_rows(hv, i as int, lv, sel, cw as nat));
                }
                i = i + 1;
            }
            assert(expanded_rows(hv, i as int, lv, sel, cw as nat) =~= Seq::<Seq<SpanV>>::empty());
            assert(lines_view(out@) =~= expanded_rows(hv, 0, lv, sel, cw as nat));
        } else {
            let (_, pw, _) = e.source_prefix();
            let max = cw.saturating_sub(pw);
            let t = match fit_to_width(text.as_str(), max) {
                Some(t) => t,
                None => String::new(),
            };
            let dl = highlight_display_line(t.as_str(), &self.colors, sel);
            let body = if sel { apply_selected_style(dl) } else { dl };
            let row = join_spans(&lead, body);
            out.push(Line { spans: row });
            proof {
                assert(t@ == collapsed_text(text@, max as nat));
                assert(lines_view(out@) =~= entry_rows(self, idx as int, cw as nat));
            }
        }
        out
    }

    /// The rows of the list in a view `width` columns wide and `height` rows
    /// tall: auto-scroll first follows the newest line, the scroll position
    /// is kept within the content, and then the rows from it on are drawn.
    pub fn list_rows(&mut self, width: usize, height: usize) -> (r: Vec<Line>)
        requires
            app_wf(old(self)),
        ensures
            app_wf(final(self)),
            ({
                let cw = (if width >= TIMESTAMP_WIDTH { width - TIMESTAMP_WIDTH } else { 0 }) as nat;
                let f = shown(old(self));
                let total = prefix_sums(row_heights(old(self), cw)).last();
                let follow = old(self).auto_scroll && f.len() > 0;
                let off = if follow { to_usize(total - height) } else { old(self).scroll_offset };
                &&& shown(final(self)) == f
                &&& row_heights(final(self), cw) == row_heights(old(self), cw)
                &&& final(self).selected == (if follow { f.last() } else { old(self).selected })
                &&& final(self).scroll_offset == (if off > to_usize(total - height) { to_usize(total - height) } else { off })
                &&& lines_view(r@) == list_view(final(self), height as nat, cw)
            }),
            final(self).lines == old(self).lines && final(self).filter == old(self).filter,
            final(self).expanded == old(self).expanded && final(self).auto_scroll == old(self).auto_scroll,
            r@.len() <= height,
    {
        let vh = height;
        let cw = width.saturating_sub(TIMESTAMP_WIDTH);
        self.update_auto_scroll(vh, cw);
        let ghost s1 = *self;
        proof {
            crate::viewer::lemma_cache_only(self, old(self));
        }
        let (heights, sums) = self.cached_row_layout(cw);
        let filtered = self.filtered_indices();
        proof {
            crate::viewer::lemma_cache_only(self, &s1);
            lemma_prefix_sums_len(heights@);
            lemma_prefix_sums_mono(heights@);
            lemma_shown_bounds(self);
        }
        let total = sums[sums.len() - 1];
        let max_off = total.saturating_sub(vh);
        if self.scroll_offset > max_off {
            let ghost s2 = *self;
            self.scroll_offset = max_off;
            proof {
                crate::viewer::lemma_wf_nav(self, &s2);
                crate::viewer::lemma_cache_only(self, &s2);
            }
        }
        let offset = self.scroll_offset;
        let ghost f = filtered@;
        let ghost ps = sums@;
        let k = crate::viewer::last_index_at_or_below(&sums, offset, sums.len() - 1);
        proof {
            crate::viewer::lemma_cache_only(self, &s1);
            assert(ps[0] == 0);
            if vh > 0 {
                lemma_list_rows_skip(self, f, ps, cw as nat, 0, k as int, offset as int, vh as int, vh as int);
            }
        }
        let mut out: Vec<Line> = Vec::new();
        let mut pos: usize = k;
        let mut remaining: usize = vh;
        let ghost goal = list_rows_from(self, f, ps, cw as nat, 0, offset as int, vh as int, vh as int);
        assert(lines_view(out@) =~= Seq::<Seq<SpanV>>::empty());
        while pos < filtered.len() && remaining > 0
            invariant
                f == filtered@,
                f == shown(self),
                ps == sums@,
                ps.len() == f.len() + 1,
                forall|a: int, b: int| 0 <= a <= b < ps.len() ==> ps[a] <= ps[b],
                forall|j: int| 0 <= j < f.len() ==> #[trigger] f[j] < self.lines@.len(),
                pos <= f.len(),
                remaining <= vh,
                offset == self.scroll_offset,
                lines_view(out@) + list_rows_from(self, f, ps, cw as nat, pos as int, offset as int, vh as int, remaining as int) == goal,
            decreases f.len() - pos,
        {
            let first = sums[pos];
            let next = sums[pos + 1];
            if next <= offset {
                pos = pos + 1;
                continue;
            }
            if first as u128 >= offset as u128 + vh as u128 {
                proof {
                    assert(list_rows_from(self, f, ps, cw as nat, pos as int, offset as int, vh as int, remaining as int) =~= Seq::<Seq<SpanV>>::empty());
                    assert(list_rows_from(self, f, ps, cw as nat, f.len() as int, offset as int, vh as int, remaining as int) =~= Seq::<Seq<SpanV>>::empty());
                }
                pos = filtered.len();
                continue;
            }
            let skip = offset.saturating_sub(first);
            let all = self.entry_rows_for(filtered[pos], cw);
            let ghost before = lines_view(out@);
            let ghost av = lines_view(all@);
            let mut t: usize = skip;
            let mut taken: usize = 0;
            while t < all.len() && taken < remaining
                invariant
                    av == lines_view(all@),
                    skip <= t,
                    taken <= remaining,
                    skip <= av.len() ==> t - skip == taken && t <= av.len(),
                    skip > av.len() ==> t == skip && taken == 0,
                    lines_view(out@) == before + (if skip <= av.len() { av.subrange(skip as int, t as int) } else { seq![] }),
                decreases av.len() - t,
            {
                let l = Line { spans: crate::render::copy_spans(&all[t].spans) };
                let ghost b2 = lines_view(out@);
                out.push(l);
                proof {
                    assert(lines_view(out@) =~= b2.push(av[t as int]));
                    assert(av.subrange(skip as int, t + 1) =~= av.subrange(skip as int, t as int).push(av[t as int]));
                }
                t = t + 1;
                taken = taken + 1;
            }
            proof {
                let after: Seq<Seq<SpanV>> = if skip <= av.len() { av.subrange(skip as int, av.len() as int) } else { seq![] };
                let rows = if after.len() <= remaining { after } else { after.subrange(0, remaining as int) };
                if skip <= av.len() {
                    assert(av.subrange(skip as int, t as int) =~= rows);
                } else {
                    assert(rows =~= Seq::<Seq<SpanV>>::empty());
                }
                assert(rows.len() == taken);
                assert(list_rows_from(self, f, ps, cw as nat, pos as int, offset as int, vh as int, remaining as int)
                    == rows + list_rows_from(self, f, ps, cw as nat, pos + 1, offset as int, vh as int, remaining - taken));
                assert(lines_view(out@) == before + rows);
            }
            remaining = remaining - taken;
            pos = pos + 1;
        }
        proof {
            assert(list_rows_from(self, f, ps, cw as nat, pos as int, offset as int, vh as int, remaining as int) =~= Seq::<Seq<SpanV>>::empty());
            lemma_list_rows_fit(self, f, ps, cw as nat, 0, offset as int, vh as int, vh as int);
            assert(lines_view(out@).len() == out@.len());
        }
        out
    }
}

} // verus!
