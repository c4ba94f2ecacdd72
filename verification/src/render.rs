//! Measuring, truncating and coloring text for display in terminal columns.
use vstd::prelude::*;
use crate::highlight::{
    HighlightColors, JsonTokenKind, fg_style, iter_json_tokens, json_literal_color,
    lemma_token_end_bounds, literal_color, token_kind, token_rest, token_text,
};
use crate::style::{
    BOLD, Color, Line, Span, SpanV, Style, Text, patched, plain_style, spans_view, text_view,
};
use crate::text::{all_whitespace, chars_of, leading_ws_end, leading_ws_len, string_of, string_of_range};
use vstd::string::StringSliceAdditionalSpecFns;
use vstd::utf8::*;

verus! {

/// The display width in terminal columns that `UnicodeWidthStr::width` gives `s`.
pub uninterp spec fn str_width(s: Seq<char>) -> nat;

/// What `UnicodeTruncateStr::unicode_truncate` keeps of `s` for at most `max`
/// columns: a prefix and its width.
pub uninterp spec fn truncation(s: Seq<char>, max: nat) -> (Seq<char>, nat);

/// Whether every character of `s` is printable ASCII (space to `~`).
pub open spec fn one_column_text(s: Seq<char>) -> bool {
    forall|i: int| 0 <= i < s.len() ==> 0x20 <= #[trigger] (s[i] as u32) <= 0x7E
}

/// `UnicodeWidthStr::width`: the display width of `s` in columns. By its
/// documented rules printable ASCII characters are one column wide each and
/// form no sequences of their own, so such text is as wide as it is long.
#[verifier::external_body]
pub fn display_width(s: &str) -> (r: usize)
    ensures
        r == str_width(s@),
        s@.len() == 0 ==> r == 0,
        one_column_text(s@) ==> r == s@.len(),
{
    unicode_width::UnicodeWidthStr::width(s)
}

/// The characters that unicode-width measures together with a neighbour
/// that can stand in another grapheme cluster (its documented string rules):
/// the zero width joiner, the Arabic letters of the Lam joining group, the
/// Khmer coeng sign, the Lisu tone letters, the Tifinagh consonant joiner and
/// the Kirat Rai block. In text without them, by those rules, the width of a
/// string is the sum of the widths of its grapheme clusters.
pub open spec fn joins_across_graphemes(c: char) -> bool {
    let u = c as u32;
    ||| u == 0x200D
    ||| u == 0x0644
    ||| 0x06B5 <= u <= 0x06B8
    ||| u == 0x08A6
    ||| u == 0x17D2
    ||| 0xA4F8 <= u <= 0xA4FD
    ||| u == 0x2D7F
    ||| 0x16D40 <= u <= 0x16D7F
}

/// Whether no character of `s` joins across grapheme clusters.
pub open spec fn measured_by_graphemes(s: Seq<char>) -> bool {
    forall|i: int| 0 <= i < s.len() ==> !joins_across_graphemes(#[trigger] s[i])
}

/// `UnicodeTruncateStr::unicode_truncate`: the longest prefix of `s` made of
/// whole grapheme clusters whose summed width is at most `max`, and that
/// width. It checks (a debug assertion) that the prefix's string width equals
/// that sum, which holds for text measured by graphemes, so it is called on
/// such text only; there the width it gives is the prefix's width. Its
/// documentation promises that only characters at the end are removed and
/// that the width stays within `max`. In printable ASCII text each character
/// is a grapheme cluster one column wide, so it keeps `max` characters (or
/// all of them).
#[verifier::external_body]
fn truncate_to_width(s: &str, max: usize) -> (r: (String, usize))
    requires
        measured_by_graphemes(s@),
    ensures
        (r.0@, r.1 as nat) == truncation(s@, max as nat),
        r.0@.len() <= s@.len(),
        r.0@ == s@.subrange(0, r.0@.len() as int),
        r.1 == str_width(r.0@),
        r.1 <= max,
        one_column_text(s@) ==> r.0@.len() == (if max < s@.len() { max as int } else { s@.len() as int })
            && r.1 == r.0@.len(),
{
    let (t, w) = unicode_truncate::UnicodeTruncateStr::unicode_truncate(s, max);
    (t.to_string(), w)
}

/// The number of leading characters of `s`, from `k` on, for which each
/// prefix fits in `max` columns: the cut made, character by character, in
/// text that is not measured by graphemes.
pub open spec fn char_cut(s: Seq<char>, max: nat, k: nat) -> nat
    decreases s.len() - k,
{
    if k < s.len() && str_width(s.take((k + 1) as int)) <= max {
        char_cut(s, max, k + 1)
    } else {
        k
    }
}

/// What `s` is cut to for `max` columns, and the width of the cut: in text
/// measured by graphemes what `unicode_truncate` keeps; otherwise the longest
/// run of leading characters every prefix of which fits.
pub open spec fn cut_to(s: Seq<char>, max: nat) -> (Seq<char>, nat) {
    if measured_by_graphemes(s) {
        truncation(s, max)
    } else {
        let k = char_cut(s, max, 0);
        (s.take(k as int), str_width(s.take(k as int)))
    }
}

fn measured_apart(v: &[char]) -> (r: bool)
    ensures
        r == measured_by_graphemes(v@),
{
    let mut i: usize = 0;
    while i < v.len()
        invariant
            i <= v@.len(),
            forall|j: int| 0 <= j < i ==> !joins_across_graphemes(#[trigger] v@[j]),
        decreases v@.len() - i,
    {
        let u = v[i] as u32;
        if u == 0x200D || u == 0x0644 || (0x06B5 <= u && u <= 0x06B8) || u == 0x08A6 || u == 0x17D2
            || (0xA4F8 <= u && u <= 0xA4FD) || u == 0x2D7F || (0x16D40 <= u && u <= 0x16D7F) {
            assert(joins_across_graphemes(v@[i as int]));
            return false;
        }
        i = i + 1;
    }
    true
}

fn cut_by_chars(s: &str, max: usize) -> (r: (String, usize))
    ensures
        r.0@ == s@.take(char_cut(s@, max as nat, 0) as int),
        r.1 == str_width(r.0@),
{
    let v = chars_of(s);
    let n = v.len();
    let mut k: usize = 0;
    let mut kept = string_of_range(v.as_slice(), 0, 0);
    let mut w = display_width(kept.as_str());
    let mut fits = true;
    assert(v@.subrange(0, 0) =~= s@.take(0));
    while fits && k < n
        invariant
            v@ == s@,
            n == v@.len(),
            k <= n,
            char_cut(s@, max as nat, k as nat) == char_cut(s@, max as nat, 0),
            kept@ == s@.take(k as int),
            w == str_width(kept@),
            !fits ==> char_cut(s@, max as nat, k as nat) == k,
        decreases n - k + (if fits { 1int } else { 0int }),
    {
        let next = string_of_range(v.as_slice(), 0, k + 1);
        assert(next@ =~= s@.take(k + 1));
        let nw = display_width(next.as_str());
        if nw <= max {
            k = k + 1;
            kept = next;
            w = nw;
        } else {
            fits = false;
        }
    }
    (kept, w)
}

/// `s` cut to at most `max` columns, and the width of what is kept (see
/// `cut_to`); what is kept is a prefix of `s`.
pub fn cut_to_width(s: &str, max: usize) -> (r: (String, usize))
    ensures
        (r.0@, r.1 as nat) == cut_to(s@, max as nat),
        r.0@.len() <= s@.len(),
        r.0@ == s@.subrange(0, r.0@.len() as int),
        r.1 == str_width(r.0@),
        one_column_text(s@) ==> r.0@.len() == (if max < s@.len() { max as int } else { s@.len() as int })
            && r.1 == r.0@.len(),
{
    let v = chars_of(s);
    proof {
        if one_column_text(s@) {
            assert forall|i: int| 0 <= i < s@.len() implies !joins_across_graphemes(#[trigger] s@[i]) by {
                assert(0x20 <= (s@[i] as u32) <= 0x7E);
            }
        }
    }
    if measured_apart(v.as_slice()) {
        truncate_to_width(s, max)
    } else {
        proof {
            lemma_char_cut_bound(s@, max as nat, 0);
        }
        cut_by_chars(s, max)
    }
}

proof fn lemma_char_cut_bound(s: Seq<char>, max: nat, k: nat)
    requires
        k <= s.len(),
    ensures
        k <= char_cut(s, max, k) <= s.len(),
    decreases s.len() - k,
{
    if k < s.len() && str_width(s.take((k + 1) as int)) <= max {
        lemma_char_cut_bound(s, max, k + 1);
    }
}

/// `s` cut to `max_len` columns: whole when it fits, otherwise the part that
/// fits in one column less, followed by an ellipsis.
pub open spec fn truncated(s: Seq<char>, max_len: nat) -> Seq<char> {
    if str_width(s) <= max_len {
        s
    } else {
        cut_to(s, (max_len - 1) as nat).0 + seq!['…']
    }
}

/// Truncates `s` to at most `max_len` display columns, marking a cut with `…`.
pub fn truncate_str(s: &str, max_len: usize) -> (r: String)
    requires
        max_len > 0 || str_width(s@) == 0,
    ensures
        r@ == truncated(s@, max_len as nat),
{
    let width = display_width(s);
    if width <= max_len {
        s.to_owned()
    } else {
        let (t, _) = cut_to_width(s, max_len - 1);
        let mut v = chars_of(t.as_str());
        v.push('…');
        string_of(v.as_slice())
    }
}

/// `s` truncated to `max_len` columns, or `None` when there are no columns
/// and `s` takes some (the one case `truncate_str` cannot serve).
pub fn fit_to_width(s: &str, max_len: usize) -> (r: Option<String>)
    ensures
        match r {
            Some(t) => (max_len > 0 || str_width(s@) == 0) && t@ == truncated(s@, max_len as nat),
            None => max_len == 0 && str_width(s@) > 0,
        },
{
    if max_len == 0 && display_width(s) > 0 {
        None
    } else {
        Some(truncate_str(s, max_len))
    }
}

// ---------------------------------------------------------------------------
// Heights of wrapped text
// ---------------------------------------------------------------------------

/// The width of a row: the sum of its spans' widths.
pub open spec fn line_width(spans: Seq<SpanV>) -> nat
    decreases spans.len(),
{
    if spans.len() == 0 {
        0
    } else {
        line_width(spans.drop_last()) + str_width(spans.last().content)
    }
}

/// How many screen rows a row of width `w` takes when wrapped at `width`
/// columns: one for an empty row, otherwise the width divided by the
/// available columns, rounded up.
pub open spec fn rows_for(w: nat, width: nat) -> nat {
    if w == 0 {
        1
    } else {
        ((w + width - 1) / (width as int)) as nat
    }
}

/// The number of screen rows of the lines of `t` wrapped at `width` columns
/// (with no width, one per line and at least one).
pub open spec fn text_rows(t: Seq<Seq<SpanV>>, width: nat) -> nat
    decreases t.len(),
{
    if t.len() == 0 {
        0
    } else {
        text_rows(t.drop_last(), width) + rows_for(line_width(t.last()), width)
    }
}

/// The height that `t` takes wrapped at `width` columns.
pub open spec fn wrapped_height(t: Seq<Seq<SpanV>>, width: nat) -> nat {
    if width == 0 {
        if t.len() == 0 {
            1
        } else {
            t.len()
        }
    } else {
        text_rows(t, width)
    }
}

/// The width of a row of spans.
pub fn spans_width(spans: &Vec<Span>) -> (r: usize)
    requires
        line_width(spans_view(spans@)) <= usize::MAX,
    ensures
        r == line_width(spans_view(spans@)),
{
    let mut total: usize = 0;
    let mut i: usize = 0;
    while i < spans.len()
        invariant
            i <= spans@.len(),
            line_width(spans_view(spans@)) <= usize::MAX,
            total == line_width(spans_view(spans@).subrange(0, i as int)),
        decreases spans@.len() - i,
    {
        let w = display_width(spans[i].content.as_str());
        proof {
            let sv = spans_view(spans@);
            assert(sv.subrange(0, i + 1).drop_last() =~= sv.subrange(0, i as int));
            lemma_line_width_prefix(sv, i + 1);
        }
        total = total + w;
        i = i + 1;
    }
    assert(spans_view(spans@).subrange(0, i as int) =~= spans_view(spans@));
    total
}

pub proof fn lemma_line_width_prefix(spans: Seq<SpanV>, n: int)
    requires
        0 <= n <= spans.len(),
    ensures
        line_width(spans.subrange(0, n)) <= line_width(spans),
    decreases spans.len(),
{
    if n < spans.len() {
        assert(spans.drop_last().subrange(0, n) =~= spans.subrange(0, n));
        lemma_line_width_prefix(spans.drop_last(), n);
    } else {
        assert(spans.subrange(0, n) =~= spans);
    }
}

pub proof fn lemma_text_rows_prefix(t: Seq<Seq<SpanV>>, n: int, width: nat)
    requires
        0 <= n <= t.len(),
    ensures
        text_rows(t.subrange(0, n), width) <= text_rows(t, width),
    decreases t.len(),
{
    if n < t.len() {
        assert(t.drop_last().subrange(0, n) =~= t.subrange(0, n));
        lemma_text_rows_prefix(t.drop_last(), n, width);
    } else {
        assert(t.subrange(0, n) =~= t);
    }
}

/// How many screen rows `text` takes when wrapped at `width` columns.
pub fn wrapped_text_height(text: &Text, width: usize) -> (r: usize)
    requires
        width == 0 || text_rows(text_view(*text), width as nat) <= usize::MAX,
        forall|i: int| 0 <= i < text.lines@.len() ==> line_width(spans_view(#[trigger] text.lines@[i].spans@)) <= usize::MAX,
    ensures
        r == wrapped_height(text_view(*text), width as nat),
{
    if width == 0 {
        return if text.lines.len() == 0 {
            1
        } else {
            text.lines.len()
        };
    }
    let ghost tv = text_view(*text);
    let mut total: usize = 0;
    let mut i: usize = 0;
    while i < text.lines.len()
        invariant
            width > 0,
            tv == text_view(*text),
            i <= text.lines@.len(),
            text_rows(tv, width as nat) <= usize::MAX,
            forall|k: int| 0 <= k < text.lines@.len() ==> line_width(spans_view(#[trigger] text.lines@[k].spans@)) <= usize::MAX,
            total == text_rows(tv.subrange(0, i as int), width as nat),
        decreases text.lines@.len() - i,
    {
        let w = spans_width(&text.lines[i].spans);
        let rows: usize = if w == 0 {
            1
        } else {
            (w - 1) / width + 1
        };
        proof {
            assert(tv[i as int] == spans_view(text.lines@[i as int].spans@));
            assert(tv.subrange(0, i + 1).drop_last() =~= tv.subrange(0, i as int));
            lemma_text_rows_prefix(tv, i + 1, width as nat);
            if w > 0 {
                assert(((w + width - 1) / (width as int)) == (w - 1) / (width as int) + 1) by (nonlinear_arith)
                    requires
                        w > 0,
                        width > 0,
                ;
            }
        }
        total = total + rows;
        i = i + 1;
    }
    assert(tv.subrange(0, i as int) =~= tv);
    total
}

/// `n` capped at the largest `usize`.
pub open spec fn cap(n: nat) -> usize {
    if n > usize::MAX {
        usize::MAX
    } else {
        n as usize
    }
}

/// The exact width of a row of spans, in a type wide enough for any sum.
pub fn spans_width_wide(spans: &Vec<Span>) -> (r: u128)
    ensures
        r == line_width(spans_view(spans@)),
        one_column_spans(spans_view(spans@)) ==> r == spans_text(spans_view(spans@)).len(),
{
    let mut total: u128 = 0;
    let mut i: usize = 0;
    let n = spans.len();
    while i < spans.len()
        invariant
            i <= spans@.len(),
            n == spans@.len(),
            total == line_width(spans_view(spans@).subrange(0, i as int)),
            total <= i * (usize::MAX as int),
            one_column_spans(spans_view(spans@)) ==> total == spans_text(spans_view(spans@).subrange(0, i as int)).len(),
        decreases spans@.len() - i,
    {
        let w = display_width(spans[i].content.as_str());
        proof {
            let sv = spans_view(spans@);
            assert(sv.subrange(0, i + 1).drop_last() =~= sv.subrange(0, i as int));
            assert(sv[i as int].content == spans@[i as int].content@);
            if one_column_spans(sv) {
                assert(one_column_text(sv[i as int].content));
            }
            assert((i + 1) * (usize::MAX as int) == i * (usize::MAX as int) + usize::MAX) by (nonlinear_arith);
            assert(i * (usize::MAX as int) + usize::MAX <= (usize::MAX as int) * (usize::MAX as int)) by (nonlinear_arith)
                requires
                    i < usize::MAX,
            ;
            assert((usize::MAX as int) * (usize::MAX as int) < u128::MAX) by (nonlinear_arith);
        }
        total = total + (w as u128);
        i = i + 1;
    }
    assert(spans_view(spans@).subrange(0, i as int) =~= spans_view(spans@));
    total
}

pub proof fn lemma_cap_add(a: nat, b: nat)
    ensures
        cap(a + b) == (if cap(a) + cap(b) > usize::MAX { usize::MAX as int } else { cap(a) + cap(b) }),
{
}

/// The height of `text` wrapped at `width` columns, capped at the largest
/// `usize`.
pub fn wrapped_text_height_capped(text: &Text, width: usize) -> (r: usize)
    ensures
        r == cap(wrapped_height(text_view(*text), width as nat)),
{
    if width == 0 {
        return if text.lines.len() == 0 {
            1
        } else {
            text.lines.len()
        };
    }
    let ghost tv = text_view(*text);
    let mut total: usize = 0;
    let mut i: usize = 0;
    while i < text.lines.len()
        invariant
            width > 0,
            tv == text_view(*text),
            i <= text.lines@.len(),
            total == cap(text_rows(tv.subrange(0, i as int), width as nat)),
        decreases text.lines@.len() - i,
    {
        let w = spans_width_wide(&text.lines[i].spans);
        let rows: u128 = if w == 0 {
            1
        } else {
            (w - 1) / (width as u128) + 1
        };
        let capped: usize = if rows > (usize::MAX as u128) {
            usize::MAX
        } else {
            rows as usize
        };
        proof {
            assert(tv[i as int] == spans_view(text.lines@[i as int].spans@));
            assert(tv.subrange(0, i + 1).drop_last() =~= tv.subrange(0, i as int));
            if w > 0 {
                assert(((w + width - 1) / (width as int)) == (w - 1) / (width as int) + 1) by (nonlinear_arith)
                    requires
                        w > 0,
                        width > 0,
                ;
            }
            assert(capped == cap(rows_for(w as nat, width as nat)));
            lemma_cap_add(text_rows(tv.subrange(0, i as int), width as nat), rows_for(w as nat, width as nat));
        }
        total = total.saturating_add(capped);
        i = i + 1;
    }
    assert(tv.subrange(0, i as int) =~= tv);
    total
}

// ---------------------------------------------------------------------------
// Wrapping a row at a width
// ---------------------------------------------------------------------------

/// The values of rows of spans.
pub open spec fn rows_view(rows: Seq<Vec<Span>>) -> Seq<Seq<SpanV>> {
    rows.map_values(|r: Vec<Span>| spans_view(r@))
}

/// The piece of `rem` that goes next on a row with `avail` columns left, and
/// its width: all of `rem` when it fits, else what it is cut to (`cut_to`).
pub open spec fn next_chunk(rem: Seq<char>, avail: nat) -> (Seq<char>, nat) {
    if str_width(rem) <= avail {
        (rem, str_width(rem))
    } else {
        cut_to(rem, avail)
    }
}

/// How many characters of `rem` a chunk of `len` characters takes.
pub open spec fn taken(rem: Seq<char>, len: nat) -> int {
    if len <= rem.len() {
        len as int
    } else {
        rem.len() as int
    }
}

/// Lays the characters `rem` of a span in `style` out on rows of `width`
/// columns, given the rows done so far, the row being filled and its width:
/// each step puts the next chunk on the current row and ends the row once it
/// is full. When not even one grapheme fits, the current row is ended first;
/// on an empty row one character is placed alone.
pub open spec fn wrap_span(
    rows: Seq<Seq<SpanV>>,
    cur: Seq<SpanV>,
    cw: nat,
    rem: Seq<char>,
    style: Style,
    width: nat,
) -> (Seq<Seq<SpanV>>, Seq<SpanV>, nat)
    decreases rem.len(), cur.len(),
{
    if rem.len() == 0 || width == 0 {
        (rows, cur, cw)
    } else {
        let avail: nat = if cw < width { (width - cw) as nat } else { 0 };
        if avail == 0 && cur.len() > 0 {
            wrap_span(rows.push(cur), seq![], 0, rem, style, width)
        } else {
            let (chunk, w) = next_chunk(rem, avail);
            if chunk.len() == 0 && cur.len() > 0 {
                wrap_span(rows.push(cur), seq![], 0, rem, style, width)
            } else {
                let (piece, pw) = if chunk.len() == 0 {
                    (rem.subrange(0, 1), str_width(rem.subrange(0, 1)))
                } else {
                    (chunk, w)
                };
                let k = taken(rem, piece.len());
                let rest = rem.subrange(k, rem.len() as int);
                let cur2 = cur.push(SpanV { content: piece, style });
                let cw2 = cw + pw;
                if cw2 >= width {
                    wrap_span(rows.push(cur2), seq![], 0, rest, style, width)
                } else {
                    wrap_span(rows, cur2, cw2, rest, style, width)
                }
            }
        }
    }
}

/// The layout state after the spans `spans`, starting from nothing.
pub open spec fn wrap_fold(spans: Seq<SpanV>, width: nat) -> (Seq<Seq<SpanV>>, Seq<SpanV>, nat)
    decreases spans.len(),
{
    if spans.len() == 0 {
        (seq![], seq![], 0)
    } else {
        let (r, c, w) = wrap_fold(spans.drop_last(), width);
        wrap_span(r, c, w, spans.last().content, spans.last().style, width)
    }
}

/// The rows that a row of spans becomes at `width` columns: itself when it
/// fits (or there is no width, or it is empty), otherwise its spans cut into
/// chunks that fill rows of `width` columns in turn. Empty spans vanish in
/// the cutting.
pub open spec fn wrapped_rows(spans: Seq<SpanV>, width: nat) -> Seq<Seq<SpanV>> {
    if width == 0 || line_width(spans) == 0 || line_width(spans) <= width {
        if spans.len() == 0 {
            seq![]
        } else {
            seq![spans]
        }
    } else {
        let (r, c, _) = wrap_fold(spans, width);
        if c.len() > 0 {
            r.push(c)
        } else {
            r
        }
    }
}

/// Whether every span of a row holds printable ASCII only.
pub open spec fn one_column_spans(spans: Seq<SpanV>) -> bool {
    forall|k: int| 0 <= k < spans.len() ==> one_column_text(#[trigger] spans[k].content)
}

/// The characters of a row, span after span.
pub open spec fn spans_text(spans: Seq<SpanV>) -> Seq<char>
    decreases spans.len(),
{
    if spans.len() == 0 {
        seq![]
    } else {
        spans_text(spans.drop_last()) + spans.last().content
    }
}

/// The characters of rows, row after row.
pub open spec fn rows_text(rows: Seq<Seq<SpanV>>) -> Seq<char>
    decreases rows.len(),
{
    if rows.len() == 0 {
        seq![]
    } else {
        rows_text(rows.drop_last()) + spans_text(rows.last())
    }
}

/// A copy of `spans`.
pub fn copy_spans(spans: &Vec<Span>) -> (r: Vec<Span>)
    ensures
        spans_view(r@) == spans_view(spans@),
{
    let mut out: Vec<Span> = Vec::new();
    let mut i: usize = 0;
    while i < spans.len()
        invariant
            i <= spans@.len(),
            spans_view(out@) == spans_view(spans@).subrange(0, i as int),
        decreases spans@.len() - i,
    {
        let ghost before = out@;
        let sp = Span::styled(spans[i].content.clone(), spans[i].style);
        out.push(sp);
        proof {
            assert(spans_view(out@) =~= spans_view(before).push(sp@));
            assert(spans_view(spans@).subrange(0, i + 1) =~= spans_view(spans@).subrange(0, i as int).push(spans@[i as int]@));
        }
        i = i + 1;
    }
    assert(spans_view(spans@).subrange(0, i as int) =~= spans_view(spans@));
    out
}

/// Lays the characters of `content` out as `wrap_span` does.
#[verifier::spinoff_prover]
#[verifier::rlimit(60)]
fn wrap_one(
    rows: Vec<Vec<Span>>,
    cur: Vec<Span>,
    cw: usize,
    content: &str,
    style: Style,
    width: usize,
) -> (r: (Vec<Vec<Span>>, Vec<Span>, usize))
    requires
        width > 0,
        cw < width,
        cur@.len() == 0 ==> cw == 0,
    ensures
        (rows_view(r.0@), spans_view(r.1@), r.2 as nat) == wrap_span(rows_view(rows@), spans_view(cur@), cw as nat, content@, style, width as nat),
        r.2 < width,
        r.1@.len() == 0 ==> r.2 == 0,
        rows_text(rows_view(r.0@)) + spans_text(spans_view(r.1@)) == rows_text(rows_view(rows@)) + spans_text(spans_view(cur@)) + content@,
        one_column_text(content@) && (cur@.len() > 0 ==> cw > 0) ==> r.0@.len() * width + r.2
            == rows@.len() * width + cw + content@.len() && (r.1@.len() > 0 ==> r.2 > 0),
{
    let v = chars_of(content);
    let n = v.len();
    let mut rows = rows;
    let mut cur = cur;
    let mut cw = cw;
    let mut pos: usize = 0;
    let ghost goal = wrap_span(rows_view(rows@), spans_view(cur@), cw as nat, content@, style, width as nat);
    let ghost text0 = rows_text(rows_view(rows@)) + spans_text(spans_view(cur@)) + content@;
    let ghost asc = one_column_text(content@) && (cur@.len() > 0 ==> cw > 0);
    let ghost base = rows@.len() * width + cw;
    assert(v@.subrange(0, n as int) =~= content@);
    while pos < n
        invariant
            v@ == content@,
            asc ==> one_column_text(content@),
            asc ==> rows@.len() * width + cw == base + pos,
            asc ==> (cur@.len() > 0 ==> cw > 0),
            width > 0,
            n == v@.len(),
            pos <= n,
            cw < width,
            cur@.len() == 0 ==> cw == 0,
            wrap_span(rows_view(rows@), spans_view(cur@), cw as nat, v@.subrange(pos as int, n as int), style, width as nat) == goal,
            rows_text(rows_view(rows@)) + spans_text(spans_view(cur@)) + v@.subrange(pos as int, n as int) == text0,
        decreases 2 * (n - pos) + (if cur@.len() > 0 { 1int } else { 0int }),
    {
        let ghost rem = v@.subrange(pos as int, n as int);
        let ghost rv = rows_view(rows@);
        let ghost cv = spans_view(cur@);
        let avail = width - cw;
        let rem_s = string_of_range(v.as_slice(), pos, n);
        proof {
            if asc {
                assert forall|i: int| 0 <= i < rem.len() implies 0x20 <= #[trigger] (rem[i] as u32) <= 0x7E by {
                    assert(rem[i] == content@[pos + i]);
                }
            }
        }
        let rw = display_width(rem_s.as_str());
        let (chunk, w) = if rw <= avail {
            (rem_s, rw)
        } else {
            cut_to_width(rem_s.as_str(), avail)
        };
        let clen = chars_of(chunk.as_str()).len();
        assert((chunk@, w as nat) == next_chunk(rem, avail as nat));
        proof {
            if asc {
                assert(clen > 0 && clen == w && cw + w <= width && clen <= rem.len());
            }
        }
        if clen == 0 && cur.len() > 0 {
            let done = cur;
            rows.push(done);
            cur = Vec::new();
            cw = 0;
            proof {
                assert(rows_view(rows@) =~= rv.push(cv));
                assert(spans_view(cur@) =~= Seq::<SpanV>::empty());
                assert(rv.push(cv).drop_last() =~= rv);
                assert(rows_text(rows_view(rows@)) + spans_text(spans_view(cur@)) + rem =~= rows_text(rv) + spans_text(cv) + rem);
            }
        } else {
            let (piece, pw, k) = if clen == 0 {
                let one = string_of_range(v.as_slice(), pos, pos + 1);
                let w1 = display_width(one.as_str());
                (one, w1, 1usize)
            } else {
                (chunk, w, clen)
            };
            assert(piece@ =~= rem.subrange(0, k as int));
            proof {
                assert(rem.subrange(0, 1) =~= v@.subrange(pos as int, pos + 1));
                assert(k == taken(rem, piece@.len()));
                assert(v@.subrange(pos + k, n as int) =~= rem.subrange(k as int, rem.len() as int));
            }
            let sp = Span::styled(piece, style);
            cur.push(sp);
            proof {
                assert(spans_view(cur@) =~= cv.push(sp@));
                assert(cv.push(sp@).drop_last() =~= cv);
                assert(rem =~= rem.subrange(0, k as int) + v@.subrange(pos + k, n as int));
                assert(spans_text(spans_view(cur@)) == spans_text(cv) + piece@);
                assert(rows_text(rv) + spans_text(spans_view(cur@)) + v@.subrange(pos + k, n as int) =~= rows_text(rv) + spans_text(cv) + rem);
            }
            let ghost r0 = rows@.len();
            let ghost cw0 = cw;
            let ghost pos0 = pos;
            pos = pos + k;
            if cw as u128 + pw as u128 >= width as u128 {
                let done = cur;
                rows.push(done);
                cur = Vec::new();
                cw = 0;
                proof {
                    if asc {
                        assert((r0 + 1) * width == r0 * width + width) by (nonlinear_arith);
                        assert(rows@.len() * width + cw == base + pos);
                    }
                    assert(rows_view(rows@) =~= rv.push(cv.push(sp@)));
                    assert(spans_view(cur@) =~= Seq::<SpanV>::empty());
                    assert(rv.push(cv.push(sp@)).drop_last() =~= rv);
                    assert(rows_text(rows_view(rows@)) + spans_text(spans_view(cur@)) =~= rows_text(rv) + spans_text(cv.push(sp@)));
                }
            } else {
                cw = cw + pw;
            }
        }
    }
    proof {
        assert(v@.subrange(pos as int, n as int).len() == 0);
        assert(rows_text(rows_view(rows@)) + spans_text(spans_view(cur@)) =~= text0);
    }
    (rows, cur, cw)
}

/// Cuts a row of spans into rows of at most `width` columns (see
/// `wrapped_rows`). For printable ASCII text the number of rows (at least
/// one) is the height that `wrapped_text_height` gives the row.
pub fn wrap_line(line: &Line, width: usize) -> (r: Vec<Vec<Span>>)
    ensures
        rows_view(r@) == wrapped_rows(spans_view(line.spans@), width as nat),
        rows_text(rows_view(r@)) == spans_text(spans_view(line.spans@)),
        width > 0 && one_column_spans(spans_view(line.spans@)) ==> (if r@.len() > 1 {
            r@.len() as nat
        } else {
            1nat
        }) == wrapped_height(seq![spans_view(line.spans@)], width as nat),
{
    let lw = spans_width_wide(&line.spans);
    let ghost sv = spans_view(line.spans@);
    let ghost asc = width > 0 && one_column_spans(sv);
    proof {
        let t = seq![sv];
        assert(t.drop_last() =~= Seq::<Seq<SpanV>>::empty());
        assert(t.last() == sv);
        assert(text_rows(Seq::<Seq<SpanV>>::empty(), width as nat) == 0);
        assert(text_rows(t, width as nat) == rows_for(line_width(sv), width as nat));
    }
    if width == 0 || lw == 0 || lw <= width as u128 {
        proof {
            if asc && lw > 0 {
                let w = width as int;
                let l = lw as int;
                assert((l + w - 1) / w == 1) by (nonlinear_arith)
                    requires
                        0 < l <= w,
                ;
            }
        }
        let mut out: Vec<Vec<Span>> = Vec::new();
        if line.spans.len() > 0 {
            let c = copy_spans(&line.spans);
            out.push(c);
            assert(rows_view(out@) =~= seq![sv]);
            assert(seq![sv].drop_last() =~= Seq::<Seq<SpanV>>::empty());
            assert(rows_text(Seq::<Seq<SpanV>>::empty()) == Seq::<char>::empty());
            assert(Seq::<char>::empty() + spans_text(sv) =~= spans_text(sv));
            assert(rows_text(seq![sv]) == spans_text(sv));
        } else {
            assert(rows_view(out@) =~= Seq::<Seq<SpanV>>::empty());
            assert(sv =~= Seq::<SpanV>::empty());
        }
        return out;
    }
    let mut rows: Vec<Vec<Span>> = Vec::new();
    let mut cur: Vec<Span> = Vec::new();
    let mut cw: usize = 0;
    let mut i: usize = 0;
    assert(sv.subrange(0, 0) =~= Seq::<SpanV>::empty());
    assert(rows_view(rows@) =~= Seq::<Seq<SpanV>>::empty());
    assert(spans_view(cur@) =~= Seq::<SpanV>::empty());
    while i < line.spans.len()
        invariant
            width > 0,
            sv == spans_view(line.spans@),
            i <= line.spans@.len(),
            cw < width,
            cur@.len() == 0 ==> cw == 0,
            (rows_view(rows@), spans_view(cur@), cw as nat) == wrap_fold(sv.subrange(0, i as int), width as nat),
            rows_text(rows_view(rows@)) + spans_text(spans_view(cur@)) == spans_text(sv.subrange(0, i as int)),
            asc == (width > 0 && one_column_spans(sv)),
            asc ==> rows@.len() * width + cw == spans_text(sv.subrange(0, i as int)).len(),
            asc ==> (cur@.len() > 0 ==> cw > 0),
        decreases line.spans@.len() - i,
    {
        proof {
            if asc {
                assert(sv[i as int].content == line.spans@[i as int].content@);
                assert(one_column_text(sv[i as int].content));
            }
        }
        let r = wrap_one(rows, cur, cw, line.spans[i].content.as_str(), line.spans[i].style, width);
        rows = r.0;
        cur = r.1;
        cw = r.2;
        proof {
            assert(sv.subrange(0, i + 1).drop_last() =~= sv.subrange(0, i as int));
            assert(sv.subrange(0, i + 1).last() == line.spans@[i as int]@);
            assert(spans_text(sv.subrange(0, i + 1)) == spans_text(sv.subrange(0, i as int)) + line.spans@[i as int].content@);
        }
        i = i + 1;
    }
    assert(sv.subrange(0, i as int) =~= sv);
    let ghost r0 = rows@.len() as int;
    let ghost c0 = cw as int;
    proof {
        if asc {
            let w = width as int;
            let t = lw as int;
            assert(t == r0 * w + c0);
            if c0 == 0 {
                assert((r0 * w + w - 1) / w == r0) by (nonlinear_arith)
                    requires
                        w > 0,
                        r0 >= 0,
                ;
                assert(r0 >= 1) by (nonlinear_arith)
                    requires
                        r0 * w > w,
                        w > 0,
                        r0 >= 0,
                ;
            } else {
                assert((r0 * w + c0 + w - 1) / w == r0 + 1) by (nonlinear_arith)
                    requires
                        w > 0,
                        r0 >= 0,
                        0 < c0 < w,
                ;
            }
        }
    }
    if cur.len() > 0 {
        let ghost rv = rows_view(rows@);
        let ghost cv = spans_view(cur@);
        rows.push(cur);
        assert(rows_view(rows@) =~= rv.push(cv));
        assert(rv.push(cv).drop_last() =~= rv);
    } else {
        assert(spans_view(cur@) =~= Seq::<SpanV>::empty());
        assert(rows_text(rows_view(rows@)) =~= rows_text(rows_view(rows@)) + spans_text(spans_view(cur@)));
    }
    rows
}

// ---------------------------------------------------------------------------
// Selection styles
// ---------------------------------------------------------------------------

/// The style laid over a selected row: dark gray background, bold.
pub open spec fn selected_overlay() -> Style {
    Style { fg: None, bg: Some(Color::DarkGray), add_modifier: BOLD, sub_modifier: 0 }
}

/// The style laid over the center row of a context view: black on cyan, bold.
pub open spec fn context_overlay() -> Style {
    Style { fg: Some(Color::Black), bg: Some(Color::Cyan), add_modifier: BOLD, sub_modifier: 0 }
}

/// `spans` with `overlay` laid over each span's style.
pub open spec fn overlaid(spans: Seq<SpanV>, overlay: Style) -> Seq<SpanV> {
    spans.map_values(|s: SpanV| SpanV { content: s.content, style: patched(s.style, overlay) })
}

fn overlay_spans(spans: Vec<Span>, overlay: Style) -> (r: Vec<Span>)
    ensures
        spans_view(r@) == overlaid(spans_view(spans@), overlay),
{
    let mut out: Vec<Span> = Vec::new();
    let mut i: usize = 0;
    while i < spans.len()
        invariant
            i <= spans@.len(),
            spans_view(out@) == overlaid(spans_view(spans@), overlay).subrange(0, i as int),
        decreases spans@.len() - i,
    {
        let ghost before = out@;
        let s = &spans[i];
        let c = s.content.clone();
        let sp = Span::styled(c, s.style.patch(overlay));
        out.push(sp);
        proof {
            let ov = overlaid(spans_view(spans@), overlay);
            assert(spans_view(spans@)[i as int] == spans@[i as int]@);
            assert(ov[i as int] == sp@);
            assert(spans_view(out@) =~= spans_view(before).push(sp@));
            assert(ov.subrange(0, i + 1) =~= ov.subrange(0, i as int).push(ov[i as int]));
        }
        i = i + 1;
    }
    assert(overlaid(spans_view(spans@), overlay).subrange(0, i as int) =~= overlaid(spans_view(spans@), overlay));
    out
}

/// The spans of a selected row.
pub fn apply_selected_style(spans: Vec<Span>) -> (r: Vec<Span>)
    ensures
        spans_view(r@) == overlaid(spans_view(spans@), selected_overlay()),
{
    let overlay = Style::new().bg(Color::DarkGray).add_modifier(BOLD);
    assert(0u16 | 1u16 == 1u16 && 0u16 & !1u16 == 0u16) by (bit_vector);
    assert(overlay == selected_overlay());
    overlay_spans(spans, overlay)
}

/// The spans of the center row of a context view.
pub fn apply_context_center_style(spans: Vec<Span>) -> (r: Vec<Span>)
    ensures
        spans_view(r@) == overlaid(spans_view(spans@), context_overlay()),
{
    let overlay = Style::new().bg(Color::Cyan).fg(Color::Black).add_modifier(BOLD);
    assert(0u16 | 1u16 == 1u16 && 0u16 & !1u16 == 0u16) by (bit_vector);
    assert(overlay == context_overlay());
    overlay_spans(spans, overlay)
}

// ---------------------------------------------------------------------------
// One-line highlighting for the list
// ---------------------------------------------------------------------------

/// Whether the first non-whitespace character of `s` is `c`.
pub open spec fn starts_after_ws(s: Seq<char>, c: char) -> bool {
    let i = leading_ws_end(s);
    0 <= i < s.len() && s[i] == c
}

/// The spans for the tokens of `b` on one list row: a string is a key when the
/// next non-whitespace character after it is a colon.
pub open spec fn row_spans(b: Seq<u8>, colors: HighlightColors) -> Seq<SpanV>
    decreases b.len(),
{
    if b.len() == 0 {
        seq![]
    } else {
        proof {
            lemma_token_end_bounds(b);
        }
        let text = token_text(b);
        let rest = token_rest(b);
        let style = if token_kind(b) == JsonTokenKind::Punctuation {
            fg_style(colors.punctuation)
        } else if token_kind(b) == JsonTokenKind::String {
            if starts_after_ws(decode_utf8(rest), ':') {
                fg_style(colors.key)
            } else {
                fg_style(colors.string)
            }
        } else {
            fg_style(literal_color(text, colors))
        };
        seq![SpanV { content: text, style }] + row_spans(rest, colors)
    }
}

/// A list row: colored token by token when it starts (after whitespace) with
/// `{` or `[`, one unstyled span otherwise.
pub open spec fn display_line_view(line: Seq<char>, colors: HighlightColors) -> Seq<SpanV> {
    if starts_after_ws(line, '{') || starts_after_ws(line, '[') {
        row_spans(encode_utf8(line), colors)
    } else {
        seq![SpanV { content: line, style: plain_style() }]
    }
}

/// The text of two rows of spans put one after the other.
proof fn lemma_spans_text_append(a: Seq<SpanV>, b: Seq<SpanV>)
    ensures
        spans_text(a + b) == spans_text(a) + spans_text(b),
    decreases b.len(),
{
    if b.len() == 0 {
        assert(a + b =~= a);
        assert(spans_text(a) + Seq::<char>::empty() =~= spans_text(a));
    } else {
        assert((a + b).drop_last() =~= a + b.drop_last());
        assert((a + b).last() == b.last());
        lemma_spans_text_append(a, b.drop_last());
        assert(spans_text(a) + (spans_text(b.drop_last()) + b.last().content) =~= spans_text(a)
            + spans_text(b.drop_last()) + b.last().content);
    }
}

/// A token of valid UTF-8 text ends on a character boundary.
proof fn lemma_token_boundary(b: Seq<u8>)
    requires
        valid_utf8(b),
        b.len() > 0,
    ensures
        is_char_boundary(b, crate::highlight::token_end(b)),
{
    broadcast use is_char_boundary_start_end_of_seq;
    if crate::highlight::is_punct_byte(b[0]) {
        crate::highlight::lemma_boundary_after_ascii(b, 0);
    } else if b[0] == 34u8 {
        crate::highlight::lemma_string_end_bounds(b, 1);
        let e = crate::highlight::string_end_from(b, 1);
        if e < b.len() {
            crate::highlight::lemma_boundary_after_ascii(b, e - 1);
        }
    } else {
        crate::highlight::lemma_literal_end_bounds(b, 0);
        let e = crate::highlight::literal_end(b, 0);
        if e < b.len() {
            is_char_boundary_iff_not_is_continuation_byte(b, e);
        }
    }
}

/// The spans of a row hold its text, token after token.
proof fn lemma_row_spans_text(b: Seq<u8>, colors: HighlightColors)
    requires
        valid_utf8(b),
    ensures
        spans_text(row_spans(b, colors)) == decode_utf8(b),
    decreases b.len(),
{
    if b.len() > 0 {
        lemma_token_end_bounds(b);
        lemma_token_boundary(b);
        let e = crate::highlight::token_end(b);
        valid_utf8_split(b, e);
        decode_utf8_split(b, e);
        let rest = token_rest(b);
        lemma_row_spans_text(rest, colors);
        let sp = row_spans(b, colors);
        let first = seq![sp[0]];
        assert(sp == first + row_spans(rest, colors));
        lemma_spans_text_append(first, row_spans(rest, colors));
        assert(first.drop_last() =~= Seq::<SpanV>::empty());
        assert(spans_text(Seq::<SpanV>::empty()) =~= Seq::<char>::empty());
        assert(sp[0].content == token_text(b));
        assert(spans_text(first) =~= token_text(b));
    } else {
        assert(decode_utf8(b) =~= Seq::<char>::empty());
    }
}

/// Text whose first character is a double quote starts with the quote byte.
proof fn lemma_first_char_quote(x: Seq<u8>)
    requires
        valid_utf8(x),
        x.len() > 0,
        decode_utf8(x)[0] == '"',
    ensures
        x[0] == 34u8,
{
    decode_utf8_first_scalar(x);
    let q: u32 = 34;
    assert(decode_utf8(x)[0] == decode_first_scalar(x) as char);
    assert(('"' as u32) == q);
    assert((q & 0x7F) as u8 == 34u8) by (bit_vector)
        requires
            q == 34,
    ;
    assert(encode_scalar(q) =~= seq![34u8]);
    assert(take_first_scalar(x)[0] == x[0]);
}

proof fn lemma_row_spans_key(b: Seq<u8>, colors: HighlightColors, i: int)
    requires
        valid_utf8(b),
        0 <= i < row_spans(b, colors).len(),
        row_spans(b, colors)[i].content.len() > 0,
        row_spans(b, colors)[i].content[0] == '"',
    ensures
        row_spans(b, colors)[i].style == fg_style(
            if starts_after_ws(spans_text(row_spans(b, colors).skip(i + 1)), ':') {
                colors.key
            } else {
                colors.string
            },
        ),
    decreases b.len(),
{
    lemma_token_end_bounds(b);
    lemma_token_boundary(b);
    let e = crate::highlight::token_end(b);
    valid_utf8_split(b, e);
    let rest = token_rest(b);
    let sp = row_spans(b, colors);
    let tail = row_spans(rest, colors);
    assert(sp == seq![sp[0]] + tail);
    if i == 0 {
        assert(sp[0].content == decode_utf8(b.subrange(0, e)));
        lemma_first_char_quote(b.subrange(0, e));
        assert(b[0] == 34u8);
        assert(sp.skip(1) =~= tail);
        lemma_row_spans_text(rest, colors);
    } else {
        assert(sp[i] == tail[i - 1]);
        assert(sp.skip(i + 1) =~= tail.skip(i));
        lemma_row_spans_key(rest, colors, i - 1);
    }
}

/// In a colored list row the spans hold the row's text, and a string token
/// is shown in the key color exactly when the next character after it that
/// is not whitespace is a colon, in the string color otherwise (for
/// `{"a":"b"}`, `"a"` gets the key color and `"b"` the string color).
pub proof fn law_row_key_color(line: Seq<char>, colors: HighlightColors, i: int)
    requires
        starts_after_ws(line, '{') || starts_after_ws(line, '['),
        0 <= i < display_line_view(line, colors).len(),
        display_line_view(line, colors)[i].content.len() > 0,
        display_line_view(line, colors)[i].content[0] == '"',
    ensures
        spans_text(display_line_view(line, colors)) == line,
        display_line_view(line, colors)[i].style == fg_style(
            if starts_after_ws(spans_text(display_line_view(line, colors).skip(i + 1)), ':') {
                colors.key
            } else {
                colors.string
            },
        ),
{
    let b = encode_utf8(line);
    encode_utf8_valid_utf8(line);
    encode_utf8_decode_utf8(line);
    lemma_row_spans_text(b, colors);
    lemma_row_spans_key(b, colors, i);
}

/// A text whose first byte is an ASCII character `q` begins with that
/// character, and only such a text does.
proof fn lemma_first_char_ascii(x: Seq<u8>, q: u8)
    requires
        valid_utf8(x),
        x.len() > 0,
        q < 128,
    ensures
        decode_utf8(x).len() > 0,
        (decode_utf8(x)[0] == (q as char)) <==> x[0] == q,
{
    decode_utf8_first_scalar(x);
    let cp = decode_first_scalar(x);
    assert(decode_utf8(x)[0] == cp as char);
    let qq = q as u32;
    assert(((qq & 0x7F) as u8 == q) && ((q & 0x7F) == q)) by (bit_vector)
        requires
            q < 128,
            qq == q as u32,
    ;
    assert((q as char) as u32 == qq);
    assert(encode_scalar(qq) =~= seq![q]);
    assert(take_first_scalar(x)[0] == x[0]);
    if x[0] == q {
        assert(cp == qq);
    }
    if decode_utf8(x)[0] == (q as char) {
        assert((cp as char) as u32 == qq);
    }
}

/// Whether the spans `sp[a..b]` hold whitespace only.
pub open spec fn ws_between(sp: Seq<SpanV>, a: int, b: int) -> bool {
    forall|m: int| a <= m < b ==> all_whitespace(#[trigger] sp[m].content)
}

/// Whether `t` is one punctuation character other than the colon.
pub open spec fn other_punct(t: Seq<char>) -> bool {
    t == seq!['{'] || t == seq!['}'] || t == seq!['['] || t == seq![']'] || t == seq![',']
}

/// The spans of a pretty-printed line hold its text.
proof fn lemma_json_line_spans_text(b: Seq<u8>, k: bool, colors: HighlightColors)
    requires
        valid_utf8(b),
    ensures
        spans_text(crate::highlight::json_line_spans(b, k, colors)) == decode_utf8(b),
    decreases b.len(),
{
    if b.len() > 0 {
        lemma_token_end_bounds(b);
        lemma_token_boundary(b);
        let e = crate::highlight::token_end(b);
        valid_utf8_split(b, e);
        decode_utf8_split(b, e);
        let rest = token_rest(b);
        let sp = crate::highlight::json_line_spans(b, k, colors);
        let k2 = if token_kind(b) == JsonTokenKind::Punctuation {
            if b[0] == 58u8 {
                false
            } else {
                crate::highlight::quote_after_ws(decode_utf8(rest))
            }
        } else {
            k
        };
        let tail = crate::highlight::json_line_spans(rest, k2, colors);
        lemma_json_line_spans_text(rest, k2, colors);
        let first = seq![sp[0]];
        assert(sp == first + tail);
        lemma_spans_text_append(first, tail);
        assert(first.drop_last() =~= Seq::<SpanV>::empty());
        assert(spans_text(Seq::<SpanV>::empty()) =~= Seq::<char>::empty());
        assert(sp[0].content == token_text(b));
        assert(spans_text(first) =~= token_text(b));
    } else {
        assert(decode_utf8(b) =~= Seq::<char>::empty());
    }
}

proof fn lemma_scan_ws_to(t: Seq<char>, p: int, q: int)
    requires
        0 <= p <= q <= t.len(),
        forall|i: int| p <= i < q ==> crate::text::char_is_whitespace(#[trigger] t[i]),
        q == t.len() || !crate::text::char_is_whitespace(t[q]),
    ensures
        crate::text::scan_while(t, p, |c: char| crate::text::char_is_whitespace(c)) == q,
    decreases q - p,
{
    if p < q {
        lemma_scan_ws_to(t, p + 1, q);
    }
}

/// Text made of whitespace-only spans followed by a span that starts with a
/// double quote has the quote as its first non-whitespace character.
proof fn lemma_quote_after_ws_spans(sp: Seq<SpanV>, i: int)
    requires
        0 <= i < sp.len(),
        ws_between(sp, 0, i),
        sp[i].content.len() > 0,
        sp[i].content[0] == '"',
    ensures
        crate::highlight::quote_after_ws(spans_text(sp)),
{
    let w = spans_text(sp.subrange(0, i));
    let x = spans_text(sp.subrange(i, sp.len() as int));
    assert(sp =~= sp.subrange(0, i) + sp.subrange(i, sp.len() as int));
    lemma_spans_text_append(sp.subrange(0, i), sp.subrange(i, sp.len() as int));
    lemma_ws_spans_text(sp.subrange(0, i));
    let r = sp.subrange(i, sp.len() as int);
    assert(r =~= seq![r[0]] + r.subrange(1, r.len() as int));
    lemma_spans_text_append(seq![r[0]], r.subrange(1, r.len() as int));
    assert(seq![r[0]].drop_last() =~= Seq::<SpanV>::empty());
    assert(spans_text(Seq::<SpanV>::empty()) =~= Seq::<char>::empty());
    assert(spans_text(seq![r[0]]) =~= r[0].content);
    assert(x[0] == '"');
    let t = w + x;
    crate::text::lemma_ascii_whitespace('"');
    assert forall|m: int| 0 <= m < w.len() implies crate::text::char_is_whitespace(#[trigger] t[m]) by {
        assert(t[m] == w[m]);
    }
    assert(t[w.len() as int] == '"');
    lemma_scan_ws_to(t, 0, w.len() as int);
}

/// The text of whitespace-only spans is whitespace.
proof fn lemma_ws_spans_text(sp: Seq<SpanV>)
    requires
        ws_between(sp, 0, sp.len() as int),
    ensures
        forall|m: int| 0 <= m < spans_text(sp).len() ==> crate::text::char_is_whitespace(#[trigger] spans_text(sp)[m]),
    decreases sp.len(),
{
    if sp.len() > 0 {
        let d = sp.drop_last();
        assert(ws_between(d, 0, d.len() as int)) by {
            assert forall|m: int| 0 <= m < d.len() implies all_whitespace(#[trigger] d[m].content) by {
                assert(d[m] == sp[m]);
            }
        }
        lemma_ws_spans_text(d);
        let c = sp.last().content;
        assert(all_whitespace(sp[sp.len() - 1].content));
        crate::text::lemma_scan_while_bounds(c, 0, |ch: char| crate::text::char_is_whitespace(ch));
        let t = spans_text(sp);
        assert(t == spans_text(d) + c);
        assert forall|m: int| 0 <= m < t.len() implies crate::text::char_is_whitespace(#[trigger] t[m]) by {
            if m < spans_text(d).len() {
                assert(t[m] == spans_text(d)[m]);
            } else {
                assert(t[m] == c[m - spans_text(d).len()]);
            }
        }
    }
}

/// The first token's text: one character for punctuation, a double quote
/// first for a string, neither for a literal.
proof fn lemma_first_token_text(b: Seq<u8>)
    requires
        valid_utf8(b),
        b.len() > 0,
    ensures
        token_text(b).len() > 0,
        token_kind(b) == JsonTokenKind::Punctuation ==> token_text(b) == seq![b[0] as char],
        (token_text(b)[0] == '"') <==> token_kind(b) == JsonTokenKind::String,
        token_kind(b) != JsonTokenKind::Punctuation ==> token_text(b).len() != 1 || !(
            token_text(b)[0] == ':' || token_text(b)[0] == '{' || token_text(b)[0] == '}'
            || token_text(b)[0] == '[' || token_text(b)[0] == ']' || token_text(b)[0] == ','),
{
    lemma_token_end_bounds(b);
    lemma_token_boundary(b);
    let e = crate::highlight::token_end(b);
    valid_utf8_split(b, e);
    let x = b.subrange(0, e);
    assert(x[0] == b[0]);
    lemma_first_char_ascii(x, 34u8);
    lemma_first_char_ascii(x, 58u8);
    lemma_first_char_ascii(x, 123u8);
    lemma_first_char_ascii(x, 125u8);
    lemma_first_char_ascii(x, 91u8);
    lemma_first_char_ascii(x, 93u8);
    lemma_first_char_ascii(x, 44u8);
    assert((34u8 as char) == '"' && (58u8 as char) == ':' && (123u8 as char) == '{' && (125u8 as char)
        == '}' && (91u8 as char) == '[' && (93u8 as char) == ']' && (44u8 as char) == ',');
    if token_kind(b) == JsonTokenKind::Punctuation {
        assert(e == 1);
        lemma_first_char_ascii(x, b[0]);
        assert(length_of_first_scalar(x) == 1);
        assert(pop_first_scalar(x) =~= Seq::<u8>::empty());
        assert(decode_utf8(pop_first_scalar(x)) =~= Seq::<char>::empty());
        assert(token_text(b) =~= seq![b[0] as char]);
    }
}

proof fn lemma_pretty_key(b: Seq<u8>, k: bool, colors: HighlightColors, i: int, j: int)
    requires
        valid_utf8(b),
        0 <= i < crate::highlight::json_line_spans(b, k, colors).len(),
        crate::highlight::json_line_spans(b, k, colors)[i].content.len() > 0,
        crate::highlight::json_line_spans(b, k, colors)[i].content[0] == '"',
    ensures
        ({
            let sp = crate::highlight::json_line_spans(b, k, colors);
            &&& ws_between(sp, 0, i) ==> sp[i].style == fg_style(
                if k {
                    colors.key
                } else {
                    colors.string
                },
            )
            &&& 0 <= j < i && sp[j].content == seq![':'] && ws_between(sp, j + 1, i) ==> sp[i].style
                == fg_style(colors.string)
            &&& 0 <= j < i && other_punct(sp[j].content) && ws_between(sp, j + 1, i) ==> sp[i].style
                == fg_style(colors.key)
        }),
    decreases b.len(),
{
    lemma_token_end_bounds(b);
    lemma_token_boundary(b);
    let e = crate::highlight::token_end(b);
    valid_utf8_split(b, e);
    decode_utf8_split(b, e);
    lemma_first_token_text(b);
    let rest = token_rest(b);
    let sp = crate::highlight::json_line_spans(b, k, colors);
    let k2 = if token_kind(b) == JsonTokenKind::Punctuation {
        if b[0] == 58u8 {
            false
        } else {
            crate::highlight::quote_after_ws(decode_utf8(rest))
        }
    } else {
        k
    };
    let tail = crate::highlight::json_line_spans(rest, k2, colors);
    assert(sp == seq![sp[0]] + tail);
    assert(sp[0].content == token_text(b));
    crate::text::lemma_ascii_whitespace('"');
    if sp[0].content.len() > 0 && !crate::text::char_is_whitespace(sp[0].content[0]) {
        assert(!all_whitespace(sp[0].content)) by {
            lemma_scan_ws_to(sp[0].content, 0, 0);
        }
    }
    if i > 0 {
        assert(sp[i] == tail[i - 1]);
        lemma_pretty_key(rest, k2, colors, i - 1, j - 1);
        if ws_between(sp, 0, i) {
            assert(all_whitespace(sp[0].content));
            if token_kind(b) == JsonTokenKind::Punctuation {
                crate::text::lemma_ascii_whitespace(b[0] as char);
                assert(crate::highlight::is_punct_byte(b[0]));
                assert(sp[0].content[0] == b[0] as char);
            }
            assert(token_kind(b) == JsonTokenKind::Literal);
            assert(ws_between(tail, 0, i - 1)) by {
                assert forall|m: int| 0 <= m < i - 1 implies all_whitespace(#[trigger] tail[m].content) by {
                    assert(tail[m] == sp[m + 1]);
                }
            }
        }
        if 0 <= j < i && ws_between(sp, j + 1, i) {
            assert(ws_between(tail, j, i - 1)) by {
                assert forall|m: int| j <= m < i - 1 implies all_whitespace(#[trigger] tail[m].content) by {
                    assert(tail[m] == sp[m + 1]);
                }
            }
            if j == 0 && (sp[0].content == seq![':'] || other_punct(sp[0].content)) {
                assert(sp[0].content.len() == 1);
                assert(token_kind(b) == JsonTokenKind::Punctuation);
                assert(sp[0].content[0] == b[0] as char);
                if sp[0].content == seq![':'] {
                    assert(b[0] == 58u8);
                } else {
                    assert(b[0] != 58u8);
                    lemma_json_line_spans_text(rest, k2, colors);
                    assert(ws_between(tail, 0, i - 1));
                    lemma_quote_after_ws_spans(tail, i - 1);
                    assert(k2);
                }
            }
        }
    } else {
        assert(token_kind(b) == JsonTokenKind::String);
    }
}

/// In a highlighted line of pretty-printed JSON a string token is shown in
/// the key color when it is the first token of the line (after the
/// indentation) or when the token before it (past whitespace) is `{`, `}`,
/// `[`, `]` or `,`; it is shown in the string color when the token before it
/// (past whitespace) is a colon. The spans hold the line's text. (For the
/// line `  "a": "b",`, `"a"` gets the key color and `"b"` the string color.)
pub proof fn law_pretty_key_color(line: Seq<char>, colors: HighlightColors, i: int, j: int)
    requires
        1 <= i < crate::highlight::json_line_view(line, colors).len(),
        crate::highlight::json_line_view(line, colors)[i].content.len() > 0,
        crate::highlight::json_line_view(line, colors)[i].content[0] == '"',
    ensures
        ({
            let v = crate::highlight::json_line_view(line, colors);
            &&& spans_text(v) == line
            &&& ws_between(v, 1, i) ==> v[i].style == fg_style(colors.key)
            &&& 1 <= j < i && v[j].content == seq![':'] && ws_between(v, j + 1, i) ==> v[i].style
                == fg_style(colors.string)
            &&& 1 <= j < i && other_punct(v[j].content) && ws_between(v, j + 1, i) ==> v[i].style
                == fg_style(colors.key)
        }),
{
    let k = leading_ws_end(line);
    crate::text::lemma_scan_while_bounds(line, 0, |c: char| crate::text::char_is_whitespace(c));
    let trimmed = line.subrange(k, line.len() as int);
    let b = encode_utf8(trimmed);
    encode_utf8_valid_utf8(trimmed);
    encode_utf8_decode_utf8(trimmed);
    let v = crate::highlight::json_line_view(line, colors);
    let first = SpanV { content: line.subrange(0, k), style: plain_style() };
    let sp = crate::highlight::json_line_spans(b, true, colors);
    assert(v == seq![first] + sp);
    assert(v[i] == sp[i - 1]);
    lemma_pretty_key(b, true, colors, i - 1, j - 1);
    if ws_between(v, 1, i) {
        assert(ws_between(sp, 0, i - 1)) by {
            assert forall|m: int| 0 <= m < i - 1 implies all_whitespace(#[trigger] sp[m].content) by {
                assert(sp[m] == v[m + 1]);
            }
        }
    }
    if 1 <= j < i && ws_between(v, j + 1, i) {
        assert(ws_between(sp, j, i - 1)) by {
            assert forall|m: int| j <= m < i - 1 implies all_whitespace(#[trigger] sp[m].content) by {
                assert(sp[m] == v[m + 1]);
            }
        }
        assert(sp[j - 1] == v[j]);
    }
    lemma_json_line_spans_text(b, true, colors);
    lemma_spans_text_append(seq![first], sp);
    assert(seq![first].drop_last() =~= Seq::<SpanV>::empty());
    assert(spans_text(Seq::<SpanV>::empty()) =~= Seq::<char>::empty());
    assert(spans_text(seq![first]) =~= line.subrange(0, k));
    assert(line.subrange(0, k) + trimmed =~= line);
}

/// Colors one list row.
pub fn highlight_display_line(line: &str, colors: &HighlightColors, is_selected: bool) -> (r: Vec<Span>)
    ensures
        spans_view(r@) == display_line_view(line@, *colors),
{
    let cs = chars_of(line);
    let k = leading_ws_len(cs.as_slice());
    if !(k < cs.len() && (cs[k] == '{' || cs[k] == '[')) {
        let mut out: Vec<Span> = Vec::new();
        out.push(Span::raw(line.to_owned()));
        assert(spans_view(out@) =~= display_line_view(line@, *colors));
        return out;
    }
    let mut spans: Vec<Span> = Vec::new();
    let mut iter = iter_json_tokens(line);
    proof {
        encode_utf8_decode_utf8(line@);
        assert(spans_view(spans@) =~= Seq::<SpanV>::empty());
    }
    loop
        invariant
            spans_view(spans@) + row_spans(iter.rest.spec_bytes(), *colors) == display_line_view(line@, *colors),
        ensures
            spans_view(spans@) == display_line_view(line@, *colors),
        decreases iter.rest.spec_bytes().len(),
    {
        let ghost b = iter.rest.spec_bytes();
        let ghost before = spans@;
        match iter.next() {
            None => {
                proof {
                    assert(b.len() == 0) by {
                        if b.len() != 0 {
                            encode_utf8_decode_utf8(iter.rest@);
                        }
                    }
                    assert(spans_view(spans@) + row_spans(b, *colors) =~= spans_view(spans@));
                }
                break;
            },
            Some((kind, token)) => {
                proof {
                    lemma_token_end_bounds(b);
                    encode_utf8_decode_utf8(token@);
                    encode_utf8_decode_utf8(iter.rest@);
                    assert(token@ == token_text(b));
                    assert(iter.rest@ == decode_utf8(token_rest(b)));
                }
                let text = token.to_owned();
                let style = match kind {
                    JsonTokenKind::Punctuation => Style::new().fg(colors.punctuation),
                    JsonTokenKind::String => {
                        let after = chars_of(iter.rest);
                        let j = leading_ws_len(after.as_slice());
                        if j < after.len() && after[j] == ':' {
                            Style::new().fg(colors.key)
                        } else {
                            Style::new().fg(colors.string)
                        }
                    },
                    JsonTokenKind::Literal => Style::new().fg(json_literal_color(token, colors)),
                };
                let span = Span::styled(text, style);
                spans.push(span);
                proof {
                    assert(spans_view(spans@) =~= spans_view(before).push(span@));
                    assert(spans_view(spans@) + row_spans(iter.rest.spec_bytes(), *colors)
                        =~= spans_view(before) + row_spans(b, *colors));
                }
            },
        }
    }
    spans
}

} // verus!
