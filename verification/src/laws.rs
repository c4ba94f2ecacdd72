//! Properties that span several operations of the viewer and its filter
//! prompt.
use vstd::prelude::*;
use crate::filter::{
    FilterOp, SegmentV, ValueV, is_plain_op, plain_condition, plain_op_text, query_display, query_of,
    quoted_body, segment_at, segment_display, segments_from, skip_spaces,
};
use crate::pattern::regex_compiles;
use crate::text::{lemma_ascii_whitespace, lemma_trim_unchanged, seq_contains, trim_seq};
use crate::filter_state::{
    FilterStateV, HISTORY_LIMIT, cancelled, history_down, history_pushed, history_searched, history_up,
    input_started, newest_match, submitted,
};
use crate::viewer::{App, app_wf, context_entered, context_exited};

verus! {

/// No two neighbouring entries of `h` are equal.
pub open spec fn no_repeats(h: Seq<Seq<char>>) -> bool {
    forall|i: int| 0 <= i && i + 1 < h.len() ==> #[trigger] h[i] != h[i + 1]
}

/// What moving about in context mode leaves alone: still in context mode,
/// the same lines and filter, and the list view saved on entering.
pub open spec fn saved_view_kept(b: &App, c: &App) -> bool {
    &&& c.context_mode
    &&& c.lines == b.lines
    &&& c.filter == b.filter
    &&& c.main_selected == b.main_selected
    &&& c.main_scroll_offset == b.main_scroll_offset
    &&& c.main_auto_scroll == b.main_auto_scroll
    &&& c.main_expanded == b.main_expanded
    &&& c.main_expand_all == b.main_expand_all
}

/// Entering context mode, moving about in it (anything that keeps the saved
/// list view, as every navigation step does, see `nav_frame`), and leaving it
/// again gives back the list view as it was: the selection, the scroll
/// position, auto-scroll and the expanded lines; the lines and the filter are
/// untouched.
pub proof fn law_context_round_trip(a: &App, b: &App, c: &App, d: &App)
    requires
        app_wf(a),
        !a.context_mode,
        a.lines@.len() > 0,
        context_entered(a, b),
        saved_view_kept(b, c),
        context_exited(c, d),
    ensures
        !d.context_mode,
        d.selected == a.selected,
        d.scroll_offset == a.scroll_offset,
        d.auto_scroll == a.auto_scroll,
        d.expand_all == a.expand_all,
        d.expanded@ == a.expanded@,
        d.lines == a.lines,
        d.filter == a.filter,
{
    assert(d.expanded@ =~= a.expanded@);
}

/// Leaving context mode when not in it changes nothing.
pub proof fn law_exit_outside_context(a: &App, b: &App)
    requires
        !a.context_mode,
        context_exited(a, b),
    ensures
        *b == *a,
{
}

/// Reopening the filter prompt after a query was applied shows the query as
/// it was typed.
pub proof fn law_filter_reopen(s: FilterStateV, v: Seq<char>)
    requires
        s.input == Some(v),
        query_of(v) is Ok,
        query_of(v)->Ok_0.len() > 0,
    ensures
        submitted(s).1,
        input_started(submitted(s).0).input == Some(v),
        submitted(s).0.query == Some(query_of(v)->Ok_0),
{
}

/// Cancelling the prompt keeps the applied query and the text it came from.
pub proof fn law_cancel_keeps_query(s: FilterStateV)
    ensures
        cancelled(s).input is None,
        cancelled(s).query == s.query,
        cancelled(s).raw_input == s.raw_input,
        cancelled(s).history == s.history,
{
}

/// Adding a query to the history makes it the newest entry, never lets the
/// history grow past its limit, and never puts the same query twice in a row.
pub proof fn law_history(h: Seq<Seq<char>>, v: Seq<char>)
    requires
        h.len() <= HISTORY_LIMIT,
        no_repeats(h),
    ensures
        history_pushed(h, v).len() <= HISTORY_LIMIT,
        history_pushed(h, v).len() > 0 && history_pushed(h, v).last() == v,
        no_repeats(history_pushed(h, v)),
{
    let r = history_pushed(h, v);
    if h.len() > 0 && h.last() == v {
    } else if h.len() + 1 > HISTORY_LIMIT {
        assert forall|i: int| 0 <= i && i + 1 < r.len() implies #[trigger] r[i] != r[i + 1] by {
            if i + 2 < h.len() {
                assert(r[i] == h[i + 1] && r[i + 1] == h[i + 2]);
            } else {
                assert(r[i + 1] == v);
                assert(r[i] == h.last());
            }
        }
    } else {
        assert forall|i: int| 0 <= i && i + 1 < r.len() implies #[trigger] r[i] != r[i + 1] by {
            if i + 1 < h.len() {
                assert(r[i] == h[i] && r[i + 1] == h[i + 1]);
            } else {
                assert(r[i] == h.last());
            }
        }
    }
}

/// A query whose text (once trimmed) starts with neither `|` nor `!` is one
/// condition: the lines that contain the whole text.
pub proof fn law_bare_text_is_contains(input: Seq<char>)
    requires
        trim_seq(input).len() > 0,
        trim_seq(input)[0] != '|',
        trim_seq(input)[0] != '!',
        trim_seq(input)[0] != ' ',
    ensures
        query_of(input) == Ok::<Seq<SegmentV>, crate::filter::ErrorV>(
            seq![SegmentV::Plain(plain_condition(FilterOp::Contains, trim_seq(input)))],
        ),
{
    let s = trim_seq(input);
    assert(skip_spaces(s, 0) == 0);
    assert(s.subrange(0, s.len() as int) =~= s);
    assert(segment_at(s, 0) == Ok::<(SegmentV, int), crate::filter::ErrorV>(
        (SegmentV::Plain(plain_condition(FilterOp::Contains, s)), s.len() as int),
    ));
    assert(segments_from(s, s.len() as int, Seq::empty().push(SegmentV::Plain(plain_condition(FilterOp::Contains, s))))
        == Ok::<Seq<SegmentV>, crate::filter::ErrorV>(seq![SegmentV::Plain(plain_condition(FilterOp::Contains, s))]));
}

/// A plain-text condition that prints as it reads: a plain operator, an
/// operand with no double quote or backslash, and for the regex operators a
/// pattern that compiles.
pub open spec fn plain_printable(s: SegmentV) -> bool {
    match s {
        SegmentV::Plain(c) => match c.value {
            ValueV::Str(v) => {
                &&& is_plain_op(c.operator)
                &&& c == plain_condition(c.operator, v)
                &&& forall|i: int| 0 <= i < v.len() ==> #[trigger] v[i] != '"' && v[i] != '\\'
                &&& (c.operator == FilterOp::RegexMatch || c.operator == FilterOp::NotRegexMatch)
                    ==> regex_compiles(v)
            },
            _ => false,
        },
        _ => false,
    }
}

/// The segments `q[i..]` printed one after another, separated by spaces.
pub open spec fn display_from(q: Seq<SegmentV>, i: int) -> Seq<char>
    decreases q.len() - i,
{
    if i < 0 || i >= q.len() {
        Seq::empty()
    } else if i + 1 == q.len() {
        segment_display(q[i])
    } else {
        segment_display(q[i]) + seq![' '] + display_from(q, i + 1)
    }
}

proof fn lemma_display_from_last(q: Seq<SegmentV>, i: int)
    requires
        0 <= i,
        i + 1 < q.len(),
    ensures
        display_from(q, i) == display_from(q.drop_last(), i) + seq![' '] + segment_display(q.last()),
    decreases q.len() - i,
{
    let dl = q.drop_last();
    assert(dl[i] == q[i]);
    if i + 2 < q.len() {
        lemma_display_from_last(q, i + 1);
        assert(display_from(q, i) == segment_display(q[i]) + seq![' '] + display_from(q, i + 1));
        assert(display_from(dl, i) == segment_display(dl[i]) + seq![' '] + display_from(dl, i + 1));
        assert(display_from(q, i) =~= display_from(dl, i) + seq![' '] + segment_display(q.last()));
    } else {
        assert(display_from(q, i + 1) == segment_display(q.last()));
        assert(display_from(dl, i) == segment_display(dl[i]));
        assert(display_from(q, i) =~= display_from(dl, i) + seq![' '] + segment_display(q.last()));
    }
}

proof fn lemma_display_from_head(q: Seq<SegmentV>, i: int)
    requires
        0 <= i < q.len(),
    ensures
        segment_display(q[i]).len() <= display_from(q, i).len(),
        display_from(q, i).subrange(0, segment_display(q[i]).len() as int) == segment_display(q[i]),
{
    let d = segment_display(q[i]);
    if i + 1 < q.len() {
        assert(display_from(q, i) == d + seq![' '] + display_from(q, i + 1));
    }
    assert(display_from(q, i).subrange(0, d.len() as int) =~= d);
}

proof fn lemma_query_display_from(q: Seq<SegmentV>)
    requires
        q.len() > 0,
    ensures
        query_display(q) == display_from(q, 0),
    decreases q.len(),
{
    if q.len() > 1 {
        lemma_query_display_from(q.drop_last());
        lemma_display_from_last(q, 0);
    }
}

proof fn lemma_quoted_plain(cs: Seq<char>, pos: int, e: int, acc: Seq<char>)
    requires
        0 <= pos <= e < cs.len(),
        cs[e] == '"',
        forall|k: int| pos <= k < e ==> #[trigger] cs[k] != '"' && cs[k] != '\\',
    ensures
        quoted_body(cs, pos, acc) == Ok::<(Seq<char>, int), crate::filter::ErrorV>(
            (acc + cs.subrange(pos, e), e + 1),
        ),
    decreases e - pos,
{
    if pos < e {
        lemma_quoted_plain(cs, pos + 1, e, acc.push(cs[pos]));
        assert(acc.push(cs[pos]) + cs.subrange(pos + 1, e) =~= acc + cs.subrange(pos, e));
    } else {
        assert(cs.subrange(pos, e) =~= Seq::<char>::empty());
        assert(acc + cs.subrange(pos, e) =~= acc);
    }
}

proof fn lemma_segment_plain(cs: Seq<char>, p: int, s: SegmentV)
    requires
        plain_printable(s),
        0 <= p,
        p + segment_display(s).len() <= cs.len(),
        cs.subrange(p, p + segment_display(s).len()) == segment_display(s),
    ensures
        segment_at(cs, p) == Ok::<(SegmentV, int), crate::filter::ErrorV>(
            (s, p + segment_display(s).len()),
        ),
        cs[p] == '|' || cs[p] == '!',
{
    let d = segment_display(s);
    let c = s->Plain_0;
    let v = c.value->Str_0;
    assert(d == plain_op_text(c.operator) + seq![' '] + (seq!['"'] + v + seq!['"']));
    assert(plain_op_text(c.operator).len() == 2);
    let n = d.len() as int;
    assert(n == v.len() + 5);
    assert(cs[p] == d[0]);
    assert(cs[p + 1] == d[1]);
    assert(cs[p + 2] == d[2]);
    assert(cs[p + 3] == d[3]);
    assert(cs[p + n - 1] == d[n - 1]);
    assert forall|k: int| p + 4 <= k < p + n - 1 implies #[trigger] cs[k] != '"' && cs[k] != '\\' by {
        assert(cs[k] == d[k - p]);
        assert(d[k - p] == v[k - p - 4]);
    }
    assert(d[2] == ' ' && d[3] == '"');
    assert(cs[p + 2] == ' ' && cs[p + 3] == '"');
    assert(crate::text::scan_while(cs, p + 3, |c: char| crate::text::is_space(c)) == p + 3);
    assert(skip_spaces(cs, p + 2) == p + 3);
    lemma_quoted_plain(cs, p + 4, p + n - 1, Seq::empty());
    assert(cs.subrange(p + 4, p + n - 1) =~= v) by {
        assert forall|k: int| 0 <= k < v.len() implies cs.subrange(p + 4, p + n - 1)[k] == v[k] by {
            assert(cs[p + 4 + k] == d[4 + k]);
        }
    }
    assert(Seq::<char>::empty() + v =~= v);
}

proof fn lemma_segments_plain(cs: Seq<char>, q: Seq<SegmentV>, i: int, p: int, segs: Seq<SegmentV>)
    requires
        0 <= i < q.len(),
        forall|j: int| 0 <= j < q.len() ==> plain_printable(#[trigger] q[j]),
        0 <= p,
        p + display_from(q, i).len() == cs.len(),
        cs.subrange(p, cs.len() as int) == display_from(q, i),
    ensures
        segments_from(cs, p, segs) == Ok::<Seq<SegmentV>, crate::filter::ErrorV>(
            segs + q.subrange(i, q.len() as int),
        ),
    decreases q.len() - i,
{
    let d = segment_display(q[i]);
    let n = d.len() as int;
    let rest = display_from(q, i);
    assert(rest.subrange(0, n) =~= d);
    assert(cs.subrange(p, p + n) =~= d) by {
        assert forall|k: int| 0 <= k < n implies cs.subrange(p, p + n)[k] == d[k] by {
            assert(cs.subrange(p, cs.len() as int)[k] == rest[k]);
        }
    }
    lemma_segment_plain(cs, p, q[i]);
    assert(skip_spaces(cs, p) == p);
    if i + 1 == q.len() {
        assert(rest == d);
        assert(segments_from(cs, p + n, segs.push(q[i])) == Ok::<Seq<SegmentV>, crate::filter::ErrorV>(
            segs.push(q[i]),
        ));
        assert(segs.push(q[i]) =~= segs + q.subrange(i, q.len() as int));
    } else {
        let next = display_from(q, i + 1);
        assert(rest == d + seq![' '] + next);
        assert(cs[p + n] == ' ') by {
            assert(cs.subrange(p, cs.len() as int)[n] == rest[n]);
        }
        assert(cs.subrange(p + n + 1, cs.len() as int) =~= next) by {
            assert forall|k: int| 0 <= k < next.len() implies cs.subrange(p + n + 1, cs.len() as int)[k] == next[k] by {
                assert(cs.subrange(p, cs.len() as int)[n + 1 + k] == rest[n + 1 + k]);
            }
        }
        lemma_segments_plain(cs, q, i + 1, p + n + 1, segs.push(q[i]));
        lemma_display_from_head(q, i + 1);
        let m = segment_display(q[i + 1]).len() as int;
        assert(cs.subrange(p + n + 1, p + n + 1 + m) =~= segment_display(q[i + 1])) by {
            assert forall|k: int| 0 <= k < m implies #[trigger] cs.subrange(p + n + 1, p + n + 1 + m)[k]
                == segment_display(q[i + 1])[k] by {
                assert(cs.subrange(p + n + 1, cs.len() as int)[k] == next[k]);
                assert(next.subrange(0, m)[k] == next[k]);
            }
        }
        lemma_segment_plain(cs, p + n + 1, q[i + 1]);
        assert(skip_spaces(cs, p + n) == p + n + 1);
        assert(skip_spaces(cs, p + n + 1) == p + n + 1);
        assert(segments_from(cs, p + n, segs.push(q[i])) == segments_from(cs, p + n + 1, segs.push(q[i])));
        assert(segs.push(q[i]) + q.subrange(i + 1, q.len() as int) =~= segs + q.subrange(i, q.len() as int));
    }
}

/// A query made of plain-text conditions (operands without double quotes or
/// backslashes; regex patterns that compile) reads back as itself from the
/// text it prints as.
pub proof fn law_plain_query_round_trip(q: Seq<SegmentV>)
    requires
        q.len() > 0,
        forall|j: int| 0 <= j < q.len() ==> plain_printable(#[trigger] q[j]),
    ensures
        query_of(query_display(q)) == Ok::<Seq<SegmentV>, crate::filter::ErrorV>(q),
{
    lemma_query_display_from(q);
    let d = display_from(q, 0);
    let n0 = segment_display(q[0]).len() as int;
    assert(d.subrange(0, n0) =~= segment_display(q[0])) by {
        if q.len() > 1 {
            assert(d == segment_display(q[0]) + seq![' '] + display_from(q, 1));
        }
    }
    assert(d.subrange(0, d.len() as int) =~= d);
    lemma_segment_plain(d, 0, q[0]);
    lemma_ascii_whitespace(d[0]);
    let last = segment_display(q.last());
    assert(d.last() == '"') by {
        if q.len() > 1 {
            lemma_display_from_last(q, 0);
        }
        let c = q.last()->Plain_0;
        assert(last == plain_op_text(c.operator) + seq![' '] + (seq!['"'] + c.value->Str_0 + seq!['"']));
    }
    lemma_ascii_whitespace(d.last());
    lemma_trim_unchanged(d);
    lemma_segments_plain(d, q, 0, 0, Seq::empty());
    assert(Seq::<SegmentV>::empty() + q.subrange(0, q.len() as int) =~= q);
}

/// Stepping back through the history: the first Up (no entry chosen yet)
/// shows the newest entry, and every further Up the entry just before the
/// one shown; at the oldest entry Up stays put. The text typed before the
/// first Up is kept as the draft.
pub proof fn law_history_up(s: FilterStateV)
    requires
        s.history.len() > 0,
    ensures
        s.history_index is None ==> history_up(s).history_index == Some(s.history.len() - 1)
            && history_up(s).input == Some(s.history.last()) && history_up(s).draft == s.input,
        s.history_index is Some && 0 < s.history_index->0 <= s.history.len() ==> history_up(s).history_index
            == Some(s.history_index->0 - 1) && history_up(s).input == Some(s.history[s.history_index->0 - 1]),
        s.history_index == Some(0int) ==> history_up(s) == s,
{
}

/// Up then Down from a chosen entry that is not the newest comes back to it.
pub proof fn law_history_up_down(s: FilterStateV)
    requires
        s.history_index is Some,
        0 < s.history_index->0 < s.history.len(),
    ensures
        history_down(history_up(s)).history_index == s.history_index,
        history_down(history_up(s)).input == Some(s.history[s.history_index->0]),
{
}

/// Stepping forward through the history: from a chosen entry that is not the
/// newest, Down shows the entry just after it; from the newest (or with no
/// entry chosen) it leaves the history and brings back the text typed before
/// the first Up (an empty prompt if there was none).
pub proof fn law_history_down(s: FilterStateV)
    requires
        s.history.len() > 0,
    ensures
        s.history_index is Some && 0 <= s.history_index->0 < s.history.len() - 1
            ==> history_down(s).history_index == Some(s.history_index->0 + 1) && history_down(s).input
            == Some(s.history[s.history_index->0 + 1]),
        s.history_index is None || s.history_index == Some(s.history.len() - 1)
            ==> history_down(s).history_index is None && history_down(s).input == Some(
            match s.draft {
                Some(d) => d,
                None => Seq::<char>::empty(),
            },
        ),
{
}

/// Up from no chosen entry and then Down gives back what was typed.
pub proof fn law_history_up_then_down_restores_typed_text(s: FilterStateV)
    requires
        s.history.len() > 0,
        s.history_index is None,
        s.input is Some,
    ensures
        history_down(history_up(s)).input == s.input,
        history_down(history_up(s)).history_index is None,
{
}

proof fn lemma_newest_match(h: Seq<Seq<char>>, p: Seq<char>, lo: int, hi: int)
    ensures
        newest_match(h, p, lo, hi) matches Some(m) ==> lo <= m < hi && seq_contains(h[m], p) && forall|i: int|
            m < i < hi ==> !#[trigger] seq_contains(h[i], p),
        newest_match(h, p, lo, hi) is None ==> forall|i: int| lo <= i < hi ==> !#[trigger] seq_contains(h[i], p),
    decreases hi - lo,
{
    if hi > lo && !seq_contains(h[hi - 1], p) {
        lemma_newest_match(h, p, lo, hi - 1);
    }
}

/// The first reverse search (Ctrl-R) takes the typed text as its pattern and
/// shows the newest history entry that contains it; when no entry contains
/// it, the search reports a failure and the prompt keeps the typed text.
pub proof fn law_reverse_search_first(s: FilterStateV, p: Seq<char>)
    requires
        s.history.len() > 0,
        s.search_pattern is None,
        s.input == Some(p),
    ensures
        history_searched(s).search_pattern == Some(p),
        history_searched(s).search_original == Some(p),
        (exists|i: int| 0 <= i < s.history.len() && #[trigger] seq_contains(s.history[i], p)) ==> {
            let t = history_searched(s);
            &&& t.search_start is Some
            &&& 0 <= t.search_start->0 < s.history.len()
            &&& seq_contains(s.history[t.search_start->0], p)
            &&& forall|i: int| t.search_start->0 < i < s.history.len() ==> !#[trigger] seq_contains(s.history[i], p)
            &&& t.input == Some(s.history[t.search_start->0])
            &&& !t.search_failed
        },
        (forall|i: int| 0 <= i < s.history.len() ==> !#[trigger] seq_contains(s.history[i], p)) ==> history_searched(
            s,
        ).search_failed && history_searched(s).input == Some(p),
{
    let n = s.history.len() as int;
    lemma_newest_match(s.history, p, 0, n);
    lemma_newest_match(s.history, p, n, n);
}

} // verus!
