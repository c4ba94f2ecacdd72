//! Character-level helpers: moving between strings and character vectors,
//! substring search, and the character classes that the query grammar uses.
use vstd::prelude::*;

verus! {

/// Whether `c` has the Unicode `White_Space` property, which is how
/// `char::is_whitespace` is documented: tab, line feed, vertical tab, form
/// feed, carriage return, space, next line, no-break space, ogham space mark,
/// the spaces U+2000 to U+200A, line and paragraph separator, narrow no-break
/// space, medium mathematical space and ideographic space.
pub closed spec fn char_is_whitespace(c: char) -> bool {
    let u = c as u32;
    ||| 9 <= u <= 13
    ||| u == 0x20
    ||| u == 0x85
    ||| u == 0xA0
    ||| u == 0x1680
    ||| 0x2000 <= u <= 0x200A
    ||| u == 0x2028
    ||| u == 0x2029
    ||| u == 0x202F
    ||| u == 0x205F
    ||| u == 0x3000
}

/// Whether `c` is alphabetic or numeric in the Unicode sense (`char::is_alphanumeric`).
pub uninterp spec fn char_is_alphanumeric(c: char) -> bool;

/// Whether `c` has the Unicode `White_Space` property (see
/// `char_is_whitespace`); among ASCII characters these are tab, line feed,
/// vertical tab, form feed, carriage return and space.
pub(crate) fn is_whitespace(c: char) -> (r: bool)
    ensures
        r == char_is_whitespace(c),
        (c as u32) < 128 ==> (r <==> (c == ' ' || c == '\t' || c == '\n' || c == '\r'
            || (c as u32) == 11 || (c as u32) == 12)),
{
    let u = c as u32;
    (9 <= u && u <= 13) || u == 0x20 || u == 0x85 || u == 0xA0 || u == 0x1680 || (0x2000 <= u && u
        <= 0x200A) || u == 0x2028 || u == 0x2029 || u == 0x202F || u == 0x205F || u == 0x3000
}

/// `char::is_alphanumeric` (Unicode `Alphabetic` or `Numeric`). Among ASCII
/// characters these are exactly the letters and the decimal digits.
#[verifier::external_body]
pub(crate) fn is_alphanumeric(c: char) -> (r: bool)
    ensures
        r == char_is_alphanumeric(c),
        (c as u32) < 128 ==> (r <==> (('a' <= c && c <= 'z') || ('A' <= c && c <= 'Z') || (
        '0' <= c && c <= '9'))),
{
    c.is_alphanumeric()
}

/// The characters of `s` (`str::chars`, collected).
#[verifier::external_body]
pub(crate) fn chars_of(s: &str) -> (v: Vec<char>)
    ensures
        v@ == s@,
{
    s.chars().collect()
}

/// The string made of the characters `v[start..end]` (collected into a `String`).
#[verifier::external_body]
pub(crate) fn string_of_range(v: &[char], start: usize, end: usize) -> (s: String)
    requires
        start <= end <= v@.len(),
    ensures
        s@ == v@.subrange(start as int, end as int),
{
    v[start..end].iter().collect()
}

/// The string made of the characters of `v`.
pub fn string_of(v: &[char]) -> (s: String)
    ensures
        s@ == v@,
{
    let s = string_of_range(v, 0, v.len());
    assert(v@.subrange(0, v@.len() as int) =~= v@);
    s
}

/// Whether `needle` occurs in `hay` starting at index `i`.
pub open spec fn occurs_at(hay: Seq<char>, needle: Seq<char>, i: int) -> bool {
    0 <= i && i + needle.len() <= hay.len() && hay.subrange(i, i + needle.len()) == needle
}

/// Whether `needle` occurs somewhere in `hay` (`str::contains` on the same text).
pub open spec fn seq_contains(hay: Seq<char>, needle: Seq<char>) -> bool {
    exists|i: int| #[trigger] occurs_at(hay, needle, i)
}

/// Whether `needle` occurs in `hay` at index `i`, compared character by character.
fn matches_at(hay: &[char], needle: &[char], i: usize) -> (r: bool)
    requires
        i + needle@.len() <= hay@.len(),
    ensures
        r == occurs_at(hay@, needle@, i as int),
{
    let mut j: usize = 0;
    while j < needle.len()
        invariant
            j <= needle@.len(),
            i + needle@.len() <= hay@.len(),
            forall|k: int| 0 <= k < j ==> hay@[i + k] == needle@[k],
        decreases needle@.len() - j,
    {
        assert(i + j < hay@.len());
        assert(hay@.len() == hay.len());
        if hay[i + j] != needle[j] {
            assert(hay@.subrange(i as int, i + needle@.len())[j as int] != needle@[j as int]);
            return false;
        }
        j = j + 1;
    }
    assert(hay@.subrange(i as int, i + needle@.len()) =~= needle@);
    true
}

/// Substring search on character sequences.
pub fn contains_chars(hay: &[char], needle: &[char]) -> (r: bool)
    ensures
        r == seq_contains(hay@, needle@),
{
    if needle.len() > hay.len() {
        assert forall|i: int| !occurs_at(hay@, needle@, i) by {}
        return false;
    }
    let last = hay.len() - needle.len();
    let mut i: usize = 0;
    while i <= last
        invariant
            last + needle@.len() == hay@.len(),
            forall|k: int| 0 <= k < i ==> !#[trigger] occurs_at(hay@, needle@, k),
        decreases last + 1 - i,
    {
        if matches_at(hay, needle, i) {
            return true;
        }
        if i == last {
            assert forall|k: int| !#[trigger] occurs_at(hay@, needle@, k) by {
                if 0 <= k && k <= last {
                } else {
                }
            }
            return false;
        }
        i = i + 1;
    }
    false
}

/// `str::contains` with a string pattern: whether `needle` occurs in `hay`.
pub fn str_contains(hay: &str, needle: &str) -> (r: bool)
    ensures
        r == seq_contains(hay@, needle@),
{
    let h = chars_of(hay);
    let n = chars_of(needle);
    contains_chars(h.as_slice(), n.as_slice())
}

/// The first position at or after `pos` whose character fails `pred`
/// (or the end of `cs`).
pub open spec fn scan_while(cs: Seq<char>, pos: int, pred: spec_fn(char) -> bool) -> int
    decreases cs.len() - pos,
{
    if pos < 0 || pos >= cs.len() || !pred(cs[pos]) {
        pos
    } else {
        scan_while(cs, pos + 1, pred)
    }
}

pub open spec fn is_space(c: char) -> bool {
    c == ' '
}

pub open spec fn is_digit(c: char) -> bool {
    '0' <= c && c <= '9'
}

pub proof fn lemma_scan_while_bounds(cs: Seq<char>, pos: int, pred: spec_fn(char) -> bool)
    requires
        0 <= pos <= cs.len(),
    ensures
        pos <= scan_while(cs, pos, pred) <= cs.len(),
        scan_while(cs, pos, pred) < cs.len() ==> !pred(cs[scan_while(cs, pos, pred)]),
        forall|i: int| pos <= i < scan_while(cs, pos, pred) ==> pred(#[trigger] cs[i]),
    decreases cs.len() - pos,
{
    if pos < cs.len() && pred(cs[pos]) {
        lemma_scan_while_bounds(cs, pos + 1, pred);
    }
}

/// The position after the last character of `s[..end]` that is not whitespace.
pub open spec fn trim_end_from(s: Seq<char>, end: int) -> int
    decreases end,
{
    if end <= 0 || end > s.len() || !char_is_whitespace(s[end - 1]) {
        end
    } else {
        trim_end_from(s, end - 1)
    }
}

/// `str::trim`: `s` without leading and trailing whitespace.
pub open spec fn trim_seq(s: Seq<char>) -> Seq<char> {
    let a = scan_while(s, 0, |c: char| char_is_whitespace(c));
    let b = trim_end_from(s, s.len() as int);
    if a < b {
        s.subrange(a, b)
    } else {
        Seq::empty()
    }
}

/// Among ASCII characters, whitespace is tab, line feed, vertical tab, form
/// feed, carriage return and space.
pub proof fn lemma_ascii_whitespace(c: char)
    requires
        (c as u32) < 128,
    ensures
        char_is_whitespace(c) <==> (9 <= (c as u32) <= 13 || c == ' '),
{
}

/// A text that neither starts nor ends with whitespace is its own trim.
pub proof fn lemma_trim_unchanged(s: Seq<char>)
    requires
        s.len() > 0,
        !char_is_whitespace(s[0]),
        !char_is_whitespace(s.last()),
    ensures
        trim_seq(s) == s,
{
    assert(s.subrange(0, s.len() as int) =~= s);
}

pub proof fn lemma_trim_end_bounds(s: Seq<char>, end: int)
    requires
        0 <= end <= s.len(),
    ensures
        0 <= trim_end_from(s, end) <= end,
        trim_end_from(s, end) > 0 ==> !char_is_whitespace(s[trim_end_from(s, end) - 1]),
        forall|i: int| trim_end_from(s, end) <= i < end ==> char_is_whitespace(#[trigger] s[i]),
    decreases end,
{
    if end > 0 && char_is_whitespace(s[end - 1]) {
        lemma_trim_end_bounds(s, end - 1);
    }
}

/// The characters of `s` with leading and trailing whitespace removed.
pub fn trim_chars(v: &[char]) -> (r: Vec<char>)
    ensures
        r@ == trim_seq(v@),
{
    let len = v.len();
    let mut a: usize = 0;
    proof {
        lemma_scan_while_bounds(v@, 0, |c: char| char_is_whitespace(c));
        lemma_trim_end_bounds(v@, len as int);
    }
    while a < len && is_whitespace(v[a])
        invariant
            a <= len == v@.len(),
            scan_while(v@, a as int, |c: char| char_is_whitespace(c)) == scan_while(
                v@,
                0,
                |c: char| char_is_whitespace(c),
            ),
        decreases len - a,
    {
        a = a + 1;
    }
    let mut b: usize = len;
    while b > 0 && is_whitespace(v[b - 1])
        invariant
            b <= len == v@.len(),
            trim_end_from(v@, b as int) == trim_end_from(v@, len as int),
        decreases b,
    {
        b = b - 1;
    }
    let mut out: Vec<char> = Vec::new();
    if a < b {
        let mut i = a;
        while i < b
            invariant
                a <= i <= b <= len == v@.len(),
                out@ == v@.subrange(a as int, i as int),
            decreases b - i,
        {
            out.push(v[i]);
            i = i + 1;
            assert(out@ =~= v@.subrange(a as int, i as int));
        }
    } else {
        assert(out@ =~= Seq::<char>::empty());
    }
    out
}

/// The end of the leading whitespace of `s`.
pub open spec fn leading_ws_end(s: Seq<char>) -> int {
    scan_while(s, 0, |c: char| char_is_whitespace(c))
}

/// Whether every character of `s` is whitespace.
pub open spec fn all_whitespace(s: Seq<char>) -> bool {
    leading_ws_end(s) == s.len()
}

/// How many whitespace characters `v` starts with.
pub fn leading_ws_len(v: &[char]) -> (r: usize)
    ensures
        r == leading_ws_end(v@),
        r <= v@.len(),
{
    let len = v.len();
    let mut a: usize = 0;
    proof {
        lemma_scan_while_bounds(v@, 0, |c: char| char_is_whitespace(c));
    }
    while a < len && is_whitespace(v[a])
        invariant
            a <= len == v@.len(),
            scan_while(v@, a as int, |c: char| char_is_whitespace(c)) == leading_ws_end(v@),
        decreases len - a,
    {
        a = a + 1;
    }
    a
}

/// Where the trailing whitespace of `v` starts.
pub fn trailing_ws_start(v: &[char]) -> (r: usize)
    ensures
        r == trim_end_from(v@, v@.len() as int),
        r <= v@.len(),
{
    let len = v.len();
    let mut b: usize = len;
    while b > 0 && is_whitespace(v[b - 1])
        invariant
            b <= len == v@.len(),
            trim_end_from(v@, b as int) == trim_end_from(v@, len as int),
        decreases b,
    {
        b = b - 1;
    }
    b
}

/// The test "is not `c`".
pub open spec fn not_char(c: char) -> spec_fn(char) -> bool {
    |x: char| x != c
}

/// The position of the first `c` at or after `start`, or the length.
pub open spec fn find_from(s: Seq<char>, start: int, c: char) -> int {
    scan_while(s, start, not_char(c))
}

/// `str::lines` on the characters `s`, from `start` on: the text is split at
/// each `\n`, a `\r` just before the `\n` is dropped, and a final line
/// ending yields no empty line after it.
pub open spec fn lines_from(s: Seq<char>, start: int) -> Seq<Seq<char>>
    decreases s.len() - start,
{
    if start < 0 || start >= s.len() {
        seq![]
    } else {
        let e = find_from(s, start, '\n');
        if e >= s.len() || e < start {
            seq![s.subrange(start, s.len() as int)]
        } else {
            let line = if e > start && s[e - 1] == '\r' {
                s.subrange(start, e - 1)
            } else {
                s.subrange(start, e)
            };
            seq![line] + lines_from(s, e + 1)
        }
    }
}

/// `str::lines` on `s`.
pub open spec fn lines_of(s: Seq<char>) -> Seq<Seq<char>> {
    lines_from(s, 0)
}

/// The views of a sequence of strings.
pub open spec fn strings_view(v: Seq<String>) -> Seq<Seq<char>> {
    v.map_values(|x: String| x@)
}

/// The lines of `s`, as `str::lines` yields them.
pub fn split_lines(s: &[char]) -> (r: Vec<String>)
    ensures
        strings_view(r@) == lines_of(s@),
{
    let len = s.len();
    let mut out: Vec<String> = Vec::new();
    let mut start: usize = 0;
    while start < len
        invariant
            len == s@.len(),
            start <= len,
            strings_view(out@) + lines_from(s@, start as int) == lines_of(s@),
        decreases len - start,
    {
        let mut e = start;
        proof {
            lemma_scan_while_bounds(s@, start as int, not_char('\n'));
        }
        while e < len && s[e] != '\n'
            invariant
                start <= e <= len == s@.len(),
                scan_while(s@, e as int, not_char('\n')) == find_from(s@, start as int, '\n'),
            decreases len - e,
        {
            e = e + 1;
        }
        let ghost before = out@;
        if e >= len {
            out.push(string_of_range(s, start, len));
            proof {
                assert(strings_view(out@) =~= strings_view(before).push(s@.subrange(start as int, len as int)));
                assert(lines_from(s@, len as int) =~= Seq::<Seq<char>>::empty());
            }
            start = len;
        } else {
            let stop = if e > start && s[e - 1] == '\r' { e - 1 } else { e };
            out.push(string_of_range(s, start, stop));
            proof {
                assert(strings_view(out@) =~= strings_view(before).push(s@.subrange(start as int, stop as int)));
                assert(strings_view(out@) + lines_from(s@, e + 1) =~= strings_view(before) + lines_from(s@, start as int));
            }
            start = e + 1;
        }
    }
    proof {
        assert(strings_view(out@) + lines_from(s@, start as int) =~= strings_view(out@));
    }
    out
}

/// The strings of `v` joined by line feeds (`[String]::join("\n")`).
pub open spec fn joined_lines(v: Seq<Seq<char>>) -> Seq<char>
    decreases v.len(),
{
    if v.len() == 0 {
        seq![]
    } else if v.len() == 1 {
        v[0]
    } else {
        joined_lines(v.drop_last()) + seq!['\n'] + v.last()
    }
}

/// The strings of `v` joined by line feeds.
pub fn join_lines(v: &Vec<String>) -> (r: String)
    ensures
        r@ == joined_lines(strings_view(v@)),
{
    let mut out: Vec<char> = Vec::new();
    let mut i: usize = 0;
    while i < v.len()
        invariant
            i <= v@.len(),
            out@ == joined_lines(strings_view(v@).subrange(0, i as int)),
        decreases v@.len() - i,
    {
        let ghost before = out@;
        if i > 0 {
            out.push('\n');
        }
        let cs = chars_of(v[i].as_str());
        let mut j: usize = 0;
        while j < cs.len()
            invariant
                j <= cs@.len(),
                out@ == (if i > 0 { before + seq!['\n'] } else { before }) + cs@.subrange(0, j as int),
            decreases cs@.len() - j,
        {
            out.push(cs[j]);
            j = j + 1;
            assert(out@ =~= (if i > 0 { before + seq!['\n'] } else { before }) + cs@.subrange(0, j as int));
        }
        proof {
            let sv = strings_view(v@);
            assert(sv.subrange(0, i + 1).drop_last() =~= sv.subrange(0, i as int));
            assert(sv[i as int] == v@[i as int]@);
            assert(cs@.subrange(0, j as int) =~= cs@);
            if i == 0 {
                assert(joined_lines(sv.subrange(0, 0)) =~= Seq::<char>::empty());
                assert(out@ =~= sv.subrange(0, 1)[0]);
            } else {
                assert(out@ =~= joined_lines(sv.subrange(0, i as int)) + seq!['\n'] + sv.subrange(0, i + 1).last());
            }
        }
        i = i + 1;
    }
    assert(strings_view(v@).subrange(0, i as int) =~= strings_view(v@));
    string_of(out.as_slice())
}

/// The decimal digits.
pub open spec fn decimal_digits() -> Seq<char> {
    seq!['0', '1', '2', '3', '4', '5', '6', '7', '8', '9']
}

/// `n` written in decimal.
pub open spec fn decimal(n: nat) -> Seq<char>
    decreases n,
{
    if n < 10 {
        seq![decimal_digits()[n as int]]
    } else {
        decimal(n / 10).push(decimal_digits()[(n % 10) as int])
    }
}

/// `n` written in decimal.
pub fn decimal_text(n: usize) -> (r: Vec<char>)
    ensures
        r@ == decimal(n as nat),
    decreases n,
{
    let digits = ['0', '1', '2', '3', '4', '5', '6', '7', '8', '9'];
    assert(digits@ == decimal_digits());
    if n < 10 {
        let mut v: Vec<char> = Vec::new();
        v.push(digits[n]);
        assert(v@ =~= decimal(n as nat));
        v
    } else {
        let mut v = decimal_text(n / 10);
        v.push(digits[n % 10]);
        v
    }
}

/// The characters of `a` followed by those of `b`, as a string.
pub fn concat_text(a: &str, b: &[char]) -> (r: String)
    ensures
        r@ == a@ + b@,
{
    let mut v = chars_of(a);
    let mut i: usize = 0;
    let ghost a0 = v@;
    while i < b.len()
        invariant
            i <= b@.len(),
            v@ == a0 + b@.subrange(0, i as int),
        decreases b@.len() - i,
    {
        v.push(b[i]);
        i = i + 1;
        assert(v@ =~= a0 + b@.subrange(0, i as int));
    }
    assert(b@.subrange(0, i as int) =~= b@);
    string_of(v.as_slice())
}

} // verus!
