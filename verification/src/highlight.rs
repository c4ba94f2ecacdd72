//! JSON syntax highlighting: a tokenizer for pretty-printed JSON lines and
//! the colors given to each token.
use vstd::prelude::*;
use vstd::string::StringSliceAdditionalSpecFns;
use vstd::utf8::*;
use crate::style::{Color, Line, Span, SpanV, Style, Text, plain_style, spans_view, text_view};
use crate::text::{
    all_whitespace, char_is_whitespace, chars_of, is_digit, is_whitespace, leading_ws_end,
    leading_ws_len, lemma_scan_while_bounds, lines_of, scan_while, split_lines, string_of_range,
    strings_view, trailing_ws_start, trim_end_from,
};

verus! {

/// Index just past the closing quote of the JSON string that starts at byte 0,
/// scanning from byte `i`: a backslash skips the byte after it, an unescaped
/// quote ends the string, and running off the end gives the length.
pub open spec fn string_end_from(bytes: Seq<u8>, i: int) -> int
    decreases bytes.len() + 2 - i,
{
    if i < 0 || i >= bytes.len() {
        bytes.len() as int
    } else if bytes[i] == 92u8 {
        string_end_from(bytes, i + 2)
    } else if bytes[i] == 34u8 {
        i + 1
    } else {
        string_end_from(bytes, i + 1)
    }
}

/// Find the end index of a JSON string (including closing quote).
pub fn find_string_end(s: &str) -> (end: usize)
    ensures
        end == string_end_from(s.spec_bytes(), 1),
{
    let bytes = s.as_bytes();
    let n = bytes.len();
    let mut i: usize = 1;
    while i < n
        invariant
            n == bytes@.len(),
            bytes@ == s.spec_bytes(),
            1 <= i,
            string_end_from(bytes@, i as int) == string_end_from(bytes@, 1),
        decreases n - i,
    {
        if bytes[i] == 92u8 {
            if n - i <= 2 {
                assert(string_end_from(bytes@, i as int + 2) == n);
                return n;
            }
            i = i + 2;
        } else if bytes[i] == 34u8 {
            return i + 1;
        } else {
            i = i + 1;
        }
    }
    n
}

/// The bytes that are punctuation tokens on their own: `:` `,` `{` `}` `[` `]`.
pub open spec fn is_punct_byte(b: u8) -> bool {
    b == 58u8 || b == 44u8 || b == 123u8 || b == 125u8 || b == 91u8 || b == 93u8
}

/// The bytes that end a literal token: punctuation and the double quote.
pub open spec fn is_delim_byte(b: u8) -> bool {
    is_punct_byte(b) || b == 34u8
}

/// The first index at or after `i` that holds a delimiter byte, or the length.
pub open spec fn literal_end(bytes: Seq<u8>, i: int) -> int
    decreases bytes.len() - i,
{
    if i < 0 || i >= bytes.len() {
        bytes.len() as int
    } else if is_delim_byte(bytes[i]) {
        i
    } else {
        literal_end(bytes, i + 1)
    }
}

/// The kind of a token.
#[derive(Debug, Clone, Copy, PartialEq, Eq, Structural)]
pub enum JsonTokenKind {
    Punctuation,
    String,
    Literal,
}

/// The kind of the token at the start of non-empty `bytes`.
pub open spec fn token_kind(bytes: Seq<u8>) -> JsonTokenKind {
    if is_punct_byte(bytes[0]) {
        JsonTokenKind::Punctuation
    } else if bytes[0] == 34u8 {
        JsonTokenKind::String
    } else {
        JsonTokenKind::Literal
    }
}

/// The length in bytes of the token at the start of non-empty `bytes`: one
/// punctuation byte, a string up to its closing quote, or a literal up to the
/// next delimiter.
pub open spec fn token_end(bytes: Seq<u8>) -> int {
    if is_punct_byte(bytes[0]) {
        1
    } else if bytes[0] == 34u8 {
        string_end_from(bytes, 1)
    } else {
        literal_end(bytes, 0)
    }
}

/// The tokens of `bytes`, in order, as the token iterator hands them out.
pub open spec fn tokens_of(bytes: Seq<u8>) -> Seq<Seq<u8>>
    decreases bytes.len(),
{
    if bytes.len() == 0 {
        Seq::empty()
    } else {
        let e = token_end(bytes);
        if 0 < e <= bytes.len() {
            seq![bytes.subrange(0, e)] + tokens_of(bytes.subrange(e, bytes.len() as int))
        } else {
            seq![bytes]
        }
    }
}

/// Reading a text with the token iterator comes to an end: every token is
/// non-empty and is taken from the front of what is left, so there are at
/// most as many tokens as bytes, and the tokens put together give back the
/// whole text. (`JsonTokenIter::next` answers `None`, and keeps answering it,
/// once nothing is left.)
pub proof fn law_token_stream(bytes: Seq<u8>)
    ensures
        tokens_of(bytes).len() <= bytes.len(),
        forall|i: int| 0 <= i < tokens_of(bytes).len() ==> #[trigger] tokens_of(bytes)[i].len() > 0,
        tokens_of(bytes).flatten() == bytes,
    decreases bytes.len(),
{
    if bytes.len() > 0 {
        lemma_token_end_bounds(bytes);
        let e = token_end(bytes);
        let rest = bytes.subrange(e, bytes.len() as int);
        law_token_stream(rest);
        let ts = tokens_of(bytes);
        assert(ts == seq![bytes.subrange(0, e)] + tokens_of(rest));
        assert(ts.drop_first() =~= tokens_of(rest));
        assert forall|i: int| 0 <= i < ts.len() implies #[trigger] ts[i].len() > 0 by {
            if i > 0 {
                assert(ts[i] == tokens_of(rest)[i - 1]);
            }
        }
        assert(bytes =~= bytes.subrange(0, e) + rest);
    }
}

pub proof fn lemma_string_end_bounds(bytes: Seq<u8>, i: int)
    requires
        1 <= i,
    ensures
        i <= string_end_from(bytes, i) <= bytes.len() || (i > bytes.len() && string_end_from(bytes, i) == bytes.len()),
        1 <= string_end_from(bytes, i) || bytes.len() == 0,
        string_end_from(bytes, i) <= bytes.len(),
        string_end_from(bytes, i) < bytes.len() ==> bytes[string_end_from(bytes, i) - 1] == 34u8,
    decreases bytes.len() + 2 - i,
{
    if i >= bytes.len() {
    } else if bytes[i] == 92u8 {
        lemma_string_end_bounds(bytes, i + 2);
    } else if bytes[i] == 34u8 {
    } else {
        lemma_string_end_bounds(bytes, i + 1);
    }
}

pub proof fn lemma_literal_end_bounds(bytes: Seq<u8>, i: int)
    requires
        0 <= i <= bytes.len(),
    ensures
        i <= literal_end(bytes, i) <= bytes.len(),
        literal_end(bytes, i) < bytes.len() ==> is_delim_byte(bytes[literal_end(bytes, i)]),
    decreases bytes.len() - i,
{
    if i < bytes.len() && !is_delim_byte(bytes[i]) {
        lemma_literal_end_bounds(bytes, i + 1);
    }
}

pub proof fn lemma_token_end_bounds(bytes: Seq<u8>)
    requires
        bytes.len() > 0,
    ensures
        1 <= token_end(bytes) <= bytes.len(),
{
    if is_punct_byte(bytes[0]) {
    } else if bytes[0] == 34u8 {
        lemma_string_end_bounds(bytes, 1);
    } else {
        lemma_literal_end_bounds(bytes, 0);
    }
}

/// In valid UTF-8, the position just after an ASCII byte is a character boundary.
pub proof fn lemma_boundary_after_ascii(bytes: Seq<u8>, i: int)
    requires
        valid_utf8(bytes),
        0 <= i < bytes.len(),
        bytes[i] < 128u8,
    ensures
        is_char_boundary(bytes, i + 1),
    decreases bytes.len(),
{
    let n = length_of_first_scalar(bytes);
    let tail = pop_first_scalar(bytes);
    assert(tail.len() == bytes.len() - n);
    if i == 0 {
        assert(n == 1);
        assert(is_char_boundary(tail, 0));
        reveal_with_fuel(is_char_boundary, 2);
    } else if i < n {
        assert(is_continuation_byte(bytes[i]));
        assert(false);
    } else {
        assert(tail[i - n] == bytes[i]);
        lemma_boundary_after_ascii(tail, i - n);
        reveal_with_fuel(is_char_boundary, 2);
    }
}

/// In valid UTF-8, the position of an ASCII byte is a character boundary.
pub proof fn lemma_boundary_at_ascii(bytes: Seq<u8>, i: int)
    requires
        valid_utf8(bytes),
        0 <= i < bytes.len(),
        bytes[i] < 128u8,
    ensures
        is_char_boundary(bytes, i),
{
    is_char_boundary_iff_not_is_continuation_byte(bytes, i);
}

/// A cursor over the tokens of a line of JSON text; `rest` is what has not
/// been handed out yet.
pub struct JsonTokenIter<'a> {
    pub rest: &'a str,
}

impl<'a> JsonTokenIter<'a> {
    /// The next token and its kind, or `None` when the text is used up.
    /// Whitespace and other bytes outside strings and punctuation make up
    /// literal tokens.
    pub fn next(&mut self) -> (r: Option<(JsonTokenKind, &'a str)>)
        ensures
            old(self).rest@.len() == 0 <==> r is None,
            r is None ==> final(self).rest == old(self).rest,
            r matches Some((kind, token)) ==> {
                let b = old(self).rest.spec_bytes();
                &&& kind == token_kind(b)
                &&& token.spec_bytes() == b.subrange(0, token_end(b))
                &&& final(self).rest.spec_bytes() == b.subrange(token_end(b), b.len() as int)
            },
    {
        let s = self.rest;
        proof {
            encode_utf8_valid_utf8(s@);
            is_char_boundary_start_end_of_seq(s.spec_bytes());
        }
        if s.is_empty() {
            return None;
        }
        let bytes = s.as_bytes();
        let ghost b = s.spec_bytes();
        assert(b.len() > 0) by {
            if b.len() == 0 {
                encode_utf8_decode_utf8(s@);
            }
        }
        let first = bytes[0];
        let (kind, end) = if first == 58u8 || first == 44u8 || first == 123u8 || first == 125u8
            || first == 91u8 || first == 93u8 {
            proof {
                lemma_boundary_after_ascii(b, 0);
            }
            (JsonTokenKind::Punctuation, 1usize)
        } else if first == 34u8 {
            let end = find_string_end(s);
            proof {
                lemma_string_end_bounds(b, 1);
                if end < b.len() {
                    lemma_boundary_after_ascii(b, end - 1);
                }
            }
            (JsonTokenKind::String, end)
        } else {
            let n = bytes.len();
            let mut i: usize = 0;
            while i < n
                invariant
                    n == b.len(),
                    bytes@ == b,
                    0 <= i <= n,
                    literal_end(b, i as int) == literal_end(b, 0),
                ensures
                    i <= n,
                    i == literal_end(b, 0),
                decreases n - i,
            {
                let c = bytes[i];
                if c == 34u8 || c == 58u8 || c == 44u8 || c == 123u8 || c == 125u8 || c == 91u8
                    || c == 93u8 {
                    break;
                }
                i = i + 1;
            }
            proof {
                lemma_literal_end_bounds(b, 0);
                if i < n {
                    lemma_boundary_at_ascii(b, i as int);
                }
            }
            (JsonTokenKind::Literal, i)
        };
        let (token, rest) = s.split_at(end);
        self.rest = rest;
        Some((kind, token))
    }
}

/// A token cursor positioned at the start of `input`.
pub fn iter_json_tokens<'a>(input: &'a str) -> (it: JsonTokenIter<'a>)
    ensures
        it.rest == input,
{
    JsonTokenIter { rest: input }
}

// ---------------------------------------------------------------------------
// Colors
// ---------------------------------------------------------------------------

/// The color of each kind of JSON token.
#[derive(Debug, Clone, Copy, PartialEq, Eq, Structural)]
pub struct HighlightColors {
    pub key: Color,
    pub string: Color,
    pub number: Color,
    pub boolean: Color,
    pub null: Color,
    pub punctuation: Color,
}

/// The default palette: cyan keys, green strings, yellow numbers, magenta
/// booleans, dark gray nulls and white punctuation.
pub open spec fn default_colors() -> HighlightColors {
    HighlightColors {
        key: Color::Cyan,
        string: Color::Green,
        number: Color::Yellow,
        boolean: Color::Magenta,
        null: Color::DarkGray,
        punctuation: Color::White,
    }
}

impl Default for HighlightColors {
    fn default() -> (r: Self)
        ensures
            r == default_colors(),
    {
        HighlightColors {
            key: Color::Cyan,
            string: Color::Green,
            number: Color::Yellow,
            boolean: Color::Magenta,
            null: Color::DarkGray,
            punctuation: Color::White,
        }
    }
}

/// The style with foreground `c` and nothing else.
pub open spec fn fg_style(c: Color) -> Style {
    Style { fg: Some(c), ..plain_style() }
}

/// The test "is an ASCII digit".
pub open spec fn digit_pred() -> spec_fn(char) -> bool {
    |c: char| is_digit(c)
}

/// `c` equals the lower-case ASCII letter or other character `w`, ignoring ASCII case.
pub open spec fn ci_eq(c: char, w: char) -> bool {
    c == w || ('a' <= w && w <= 'z' && (c as u32) == (w as u32) - 32)
}

/// `s` spells `w` (given in lower case), ignoring ASCII case.
pub open spec fn eq_ignore_ascii_case(s: Seq<char>, w: Seq<char>) -> bool {
    s.len() == w.len() && forall|i: int| 0 <= i < s.len() ==> ci_eq(#[trigger] s[i], w[i])
}

/// An exponent from position `i` to the end: `e` or `E`, an optional sign,
/// and at least one digit.
pub open spec fn exponent_syntax(b: Seq<char>, i: int) -> bool {
    &&& 0 <= i < b.len()
    &&& (b[i] == 'e' || b[i] == 'E')
    &&& {
        let k = if i + 1 < b.len() && (b[i + 1] == '+' || b[i + 1] == '-') {
            i + 2
        } else {
            i + 1
        };
        let m = scan_while(b, k, digit_pred());
        m > k && m == b.len()
    }
}

/// A decimal number: digits, an optional point and digits (at least one digit
/// in all), and an optional exponent.
pub open spec fn decimal_syntax(b: Seq<char>) -> bool {
    let i1 = scan_while(b, 0, digit_pred());
    let has_point = i1 < b.len() && b[i1] == '.';
    let i2 = if has_point {
        scan_while(b, i1 + 1, digit_pred())
    } else {
        i1
    };
    let frac = if has_point {
        i2 - (i1 + 1)
    } else {
        0
    };
    &&& (i1 > 0 || frac > 0)
    &&& (i2 == b.len() || exponent_syntax(b, i2))
}

/// The text that `f64::from_str` accepts, as its documentation gives the
/// grammar: an optional sign, then `inf`, `infinity` or `nan` in any ASCII
/// case, or a decimal number.
pub open spec fn float_syntax(s: Seq<char>) -> bool {
    let b = if s.len() > 0 && (s[0] == '+' || s[0] == '-') {
        s.subrange(1, s.len() as int)
    } else {
        s
    };
    ||| eq_ignore_ascii_case(b, seq!['i', 'n', 'f'])
    ||| eq_ignore_ascii_case(b, seq!['i', 'n', 'f', 'i', 'n', 'i', 't', 'y'])
    ||| eq_ignore_ascii_case(b, seq!['n', 'a', 'n'])
    ||| decimal_syntax(b)
}

/// `str::trim` on characters.
pub open spec fn trimmed(s: Seq<char>) -> Seq<char> {
    let a = leading_ws_end(s);
    let b = trim_end_from(s, s.len() as int);
    if a < b {
        s.subrange(a, b)
    } else {
        Seq::empty()
    }
}

/// The color of a literal token, read without the whitespace around it:
/// booleans and null by their words, numbers when it reads as a float, white
/// otherwise.
pub open spec fn literal_color(t: Seq<char>, colors: HighlightColors) -> Color {
    if trimmed(t) == seq!['t', 'r', 'u', 'e'] || trimmed(t) == seq!['f', 'a', 'l', 's', 'e'] {
        colors.boolean
    } else if trimmed(t) == seq!['n', 'u', 'l', 'l'] {
        colors.null
    } else if float_syntax(trimmed(t)) {
        colors.number
    } else {
        Color::White
    }
}

fn scan_digits_from(v: &[char], start: usize) -> (r: usize)
    requires
        start <= v@.len(),
    ensures
        r == scan_while(v@, start as int, digit_pred()),
        start <= r <= v@.len(),
{
    let mut i = start;
    proof {
        lemma_scan_while_bounds(v@, start as int, digit_pred());
    }
    while i < v.len() && '0' <= v[i] && v[i] <= '9'
        invariant
            start <= i <= v@.len(),
            scan_while(v@, i as int, digit_pred()) == scan_while(v@, start as int, digit_pred()),
        decreases v@.len() - i,
    {
        i = i + 1;
    }
    i
}

/// Whether `v[from..]` spells `w`, ignoring ASCII case.
fn word_ci(v: &[char], from: usize, w: &[char]) -> (r: bool)
    requires
        from <= v@.len(),
    ensures
        r == eq_ignore_ascii_case(v@.subrange(from as int, v@.len() as int), w@),
{
    let ghost b = v@.subrange(from as int, v@.len() as int);
    if v.len() - from != w.len() {
        return false;
    }
    let mut i: usize = 0;
    while i < w.len()
        invariant
            b == v@.subrange(from as int, v@.len() as int),
            b.len() == w@.len(),
            from + w@.len() == v@.len(),
            i <= w@.len(),
            forall|j: int| 0 <= j < i ==> ci_eq(#[trigger] b[j], w@[j]),
        decreases w@.len() - i,
    {
        let k = v.len();
        assert(from + i < k);
        let c = v[from + i];
        let lw = w[i];
        let ok = c == lw || ('a' <= lw && lw <= 'z' && (c as u32) == (lw as u32) - 32);
        if !ok {
            assert(!ci_eq(b[i as int], w@[i as int]));
            return false;
        }
        i = i + 1;
    }
    true
}

/// Whether `v[i..]` is an exponent.
fn exponent_from(v: &[char], i: usize) -> (r: bool)
    requires
        i <= v@.len(),
    ensures
        r == exponent_syntax(v@, i as int),
{
    if i >= v.len() || (v[i] != 'e' && v[i] != 'E') {
        return false;
    }
    let k = if i + 1 < v.len() && (v[i + 1] == '+' || v[i + 1] == '-') {
        i + 2
    } else {
        i + 1
    };
    let m = scan_digits_from(v, k);
    m > k && m == v.len()
}

/// Whether `v[from..]` is a decimal number.
fn decimal_from(v: &[char], from: usize) -> (r: bool)
    requires
        from <= v@.len(),
    ensures
        r == decimal_syntax(v@.subrange(from as int, v@.len() as int)),
{
    let ghost b = v@.subrange(from as int, v@.len() as int);
    let mut w: Vec<char> = Vec::new();
    let mut j = from;
    while j < v.len()
        invariant
            from <= j <= v@.len(),
            w@ == v@.subrange(from as int, j as int),
        decreases v@.len() - j,
    {
        w.push(v[j]);
        j = j + 1;
        assert(w@ =~= v@.subrange(from as int, j as int));
    }
    assert(w@ == b);
    let i1 = scan_digits_from(w.as_slice(), 0);
    let has_point = i1 < w.len() && w[i1] == '.';
    let i2 = if has_point {
        scan_digits_from(w.as_slice(), i1 + 1)
    } else {
        i1
    };
    let has_frac = has_point && i2 > i1 + 1;
    if !(i1 > 0 || has_frac) {
        return false;
    }
    i2 == w.len() || exponent_from(w.as_slice(), i2)
}

/// Whether `v` is text that `f64::from_str` accepts.
pub fn is_float_text(v: &[char]) -> (r: bool)
    ensures
        r == float_syntax(v@),
{
    let from: usize = if v.len() > 0 && (v[0] == '+' || v[0] == '-') {
        1
    } else {
        0
    };
    proof {
        if from == 0 {
            assert(v@.subrange(0, v@.len() as int) =~= v@);
        }
    }
    let inf = ['i', 'n', 'f'];
    let infinity = ['i', 'n', 'f', 'i', 'n', 'i', 't', 'y'];
    let nan = ['n', 'a', 'n'];
    assert(inf@ == seq!['i', 'n', 'f']);
    assert(infinity@ == seq!['i', 'n', 'f', 'i', 'n', 'i', 't', 'y']);
    assert(nan@ == seq!['n', 'a', 'n']);
    word_ci(v, from, &inf) || word_ci(v, from, &infinity) || word_ci(v, from, &nan) || decimal_from(
        v,
        from,
    )
}

/// The characters of `v` without leading and trailing whitespace.
fn trimmed_chars(v: &[char]) -> (r: Vec<char>)
    ensures
        r@ == trimmed(v@),
{
    let a = leading_ws_len(v);
    let b = trailing_ws_start(v);
    let mut out: Vec<char> = Vec::new();
    if a < b {
        let mut i = a;
        while i < b
            invariant
                a <= i <= b <= v@.len(),
                out@ == v@.subrange(a as int, i as int),
            decreases b - i,
        {
            out.push(v[i]);
            i = i + 1;
            assert(out@ =~= v@.subrange(a as int, i as int));
        }
    } else {
        assert(out@ =~= Seq::<char>::empty());
    }
    out
}

/// Whether the characters of `v` are exactly `w`.
fn chars_equal(v: &[char], w: &[char]) -> (r: bool)
    ensures
        r == (v@ == w@),
{
    if v.len() != w.len() {
        return false;
    }
    let mut i: usize = 0;
    while i < v.len()
        invariant
            v@.len() == w@.len(),
            i <= v@.len(),
            forall|j: int| 0 <= j < i ==> v@[j] == w@[j],
        decreases v@.len() - i,
    {
        if v[i] != w[i] {
            return false;
        }
        i = i + 1;
    }
    assert(v@ =~= w@);
    true
}

/// The color for a literal token.
pub fn json_literal_color(token: &str, colors: &HighlightColors) -> (c: Color)
    ensures
        c == literal_color(token@, *colors),
{
    let t = chars_of(token);
    let tr = ['t', 'r', 'u', 'e'];
    let fa = ['f', 'a', 'l', 's', 'e'];
    let nu = ['n', 'u', 'l', 'l'];
    assert(tr@ == seq!['t', 'r', 'u', 'e']);
    assert(fa@ == seq!['f', 'a', 'l', 's', 'e']);
    assert(nu@ == seq!['n', 'u', 'l', 'l']);
    let core = trimmed_chars(t.as_slice());
    if chars_equal(core.as_slice(), &tr) || chars_equal(core.as_slice(), &fa) {
        colors.boolean
    } else if chars_equal(core.as_slice(), &nu) {
        colors.null
    } else {
        if is_float_text(core.as_slice()) {
            colors.number
        } else {
            Color::White
        }
    }
}

// ---------------------------------------------------------------------------
// Highlighting
// ---------------------------------------------------------------------------

/// Whether the first character of `s` that is not whitespace is a double quote.
pub open spec fn quote_after_ws(s: Seq<char>) -> bool {
    let i = leading_ws_end(s);
    0 <= i < s.len() && s[i] == '"'
}

/// The text of the token at the start of non-empty `b`.
pub open spec fn token_text(b: Seq<u8>) -> Seq<char> {
    decode_utf8(b.subrange(0, token_end(b)))
}

/// The bytes after the token at the start of non-empty `b`.
pub open spec fn token_rest(b: Seq<u8>) -> Seq<u8> {
    b.subrange(token_end(b), b.len() as int)
}

/// The spans for the tokens of `b` in a line of pretty-printed JSON. A string
/// is a key while `in_key` holds; a colon ends the key part, and any other
/// punctuation starts it again when the next token is a string.
pub open spec fn json_line_spans(b: Seq<u8>, in_key: bool, colors: HighlightColors) -> Seq<SpanV>
    decreases b.len(),
{
    if b.len() == 0 {
        seq![]
    } else {
        proof {
            lemma_token_end_bounds(b);
        }
        let text = token_text(b);
        let rest = token_rest(b);
        if token_kind(b) == JsonTokenKind::Punctuation {
            let next_key = if b[0] == 58u8 {
                false
            } else {
                quote_after_ws(decode_utf8(rest))
            };
            seq![SpanV { content: text, style: fg_style(colors.punctuation) }] + json_line_spans(
                rest,
                next_key,
                colors,
            )
        } else if token_kind(b) == JsonTokenKind::String {
            let c = if in_key {
                colors.key
            } else {
                colors.string
            };
            seq![SpanV { content: text, style: fg_style(c) }] + json_line_spans(rest, in_key, colors)
        } else {
            let span = if all_whitespace(text) {
                SpanV { content: text, style: plain_style() }
            } else {
                SpanV { content: text, style: fg_style(literal_color(text, colors)) }
            };
            seq![span] + json_line_spans(rest, in_key, colors)
        }
    }
}

/// The spans of a highlighted line of pretty-printed JSON: its indentation
/// unstyled, then its tokens.
pub open spec fn json_line_view(line: Seq<char>, colors: HighlightColors) -> Seq<SpanV> {
    let k = leading_ws_end(line);
    seq![SpanV { content: line.subrange(0, k), style: plain_style() }] + json_line_spans(
        encode_utf8(line.subrange(k, line.len() as int)),
        true,
        colors,
    )
}

/// Whether the first non-whitespace character of `s` is a double quote.
fn starts_with_quote_after_ws(s: &str) -> (r: bool)
    ensures
        r == quote_after_ws(s@),
{
    let v = chars_of(s);
    let i = leading_ws_len(v.as_slice());
    i < v.len() && v[i] == '"'
}

/// Highlights one line of pretty-printed JSON.
pub fn highlight_json_line(line: &str, colors: &HighlightColors) -> (r: Line)
    ensures
        spans_view(r.spans@) == json_line_view(line@, *colors),
{
    let cs = chars_of(line);
    let k = leading_ws_len(cs.as_slice());
    let indent = string_of_range(cs.as_slice(), 0, k);
    let trimmed_line = string_of_range(cs.as_slice(), k, cs.len());
    let mut spans: Vec<Span> = Vec::new();
    spans.push(Span::raw(indent));
    let mut in_key = true;
    let mut iter = iter_json_tokens(trimmed_line.as_str());
    proof {
        assert(spans_view(spans@) =~= seq![SpanV { content: line@.subrange(0, k as int), style: plain_style() }]);
    }
    loop
        invariant
            spans_view(spans@) + json_line_spans(iter.rest.spec_bytes(), in_key, *colors)
                == json_line_view(line@, *colors),
        ensures
            spans_view(spans@) == json_line_view(line@, *colors),
        decreases iter.rest.spec_bytes().len(),
    {
        let ghost b = iter.rest.spec_bytes();
        let ghost before = spans@;
        let ghost old_key = in_key;
        match iter.next() {
            None => {
                proof {
                    assert(b.len() == 0) by {
                        if b.len() != 0 {
                            encode_utf8_decode_utf8(iter.rest@);
                        }
                    }
                    assert(spans_view(spans@) + json_line_spans(b, in_key, *colors) =~= spans_view(spans@));
                }
                break;
            },
            Some((kind, token)) => {
                proof {
                    lemma_token_end_bounds(b);
                    encode_utf8_decode_utf8(token@);
                    encode_utf8_decode_utf8(iter.rest@);
                    assert(token@ == token_text(b));
                    assert(iter.rest@ == decode_utf8(token_rest(b)));
                }
                let text = token.to_owned();
                let span = match kind {
                    JsonTokenKind::Punctuation => {
                        let tb = token.as_bytes();
                        if tb.len() == 1 && tb[0] == 58u8 {
                            in_key = false;
                        } else {
                            in_key = starts_with_quote_after_ws(iter.rest);
                        }
                        Span::styled(text, Style::new().fg(colors.punctuation))
                    },
                    JsonTokenKind::String => {
                        let c = if in_key {
                            colors.key
                        } else {
                            colors.string
                        };
                        Span::styled(text, Style::new().fg(c))
                    },
                    JsonTokenKind::Literal => {
                        let tc = chars_of(token);
                        if leading_ws_len(tc.as_slice()) == tc.len() {
                            Span::raw(text)
                        } else {
                            Span::styled(text, Style::new().fg(json_literal_color(token, colors)))
                        }
                    },
                };
                spans.push(span);
                proof {
                    assert(spans_view(spans@) =~= spans_view(before).push(span@));
                    assert(spans_view(spans@) + json_line_spans(iter.rest.spec_bytes(), in_key, *colors)
                        =~= spans_view(before) + json_line_spans(b, old_key, *colors));
                }
            },
        }
    }
    Line { spans }
}

/// The highlighted lines of a pretty-printed JSON text.
pub open spec fn json_text_view(pretty: Seq<char>, colors: HighlightColors) -> Seq<Seq<SpanV>> {
    lines_of(pretty).map_values(|l: Seq<char>| json_line_view(l, colors))
}

/// A line of one unstyled span.
pub open spec fn plain_line_view(s: Seq<char>) -> Seq<SpanV> {
    seq![SpanV { content: s, style: plain_style() }]
}

/// What `serde_json::to_string_pretty` prints for the value that
/// `serde_json::from_str::<Value>` reads from the whole of `text`, if it reads one.
pub uninterp spec fn spec_pretty_json(text: Seq<char>) -> Option<Seq<char>>;

/// What serde_json's streaming deserializer reads from the start of `text`, if
/// the first value it yields parses: that value pretty-printed, the byte offset
/// after it, and the text after that offset.
pub uninterp spec fn spec_json_prefix(text: Seq<char>) -> Option<(Seq<char>, int, Seq<char>)>;

/// `serde_json::from_str::<Value>` on the whole text, then
/// `serde_json::to_string_pretty` (falling back to the text itself if printing
/// fails); `None` when the text is not one JSON value.
#[verifier::external_body]
fn pretty_json(text: &str) -> (r: Option<String>)
    ensures
        match r {
            Some(p) => spec_pretty_json(text@) == Some(p@),
            None => spec_pretty_json(text@) is None,
        },
{
    match serde_json::from_str::<serde_json::Value>(text) {
        Ok(v) => Some(serde_json::to_string_pretty(&v).unwrap_or_else(|_| text.to_string())),
        Err(_) => None,
    }
}

/// `serde_json::Deserializer::from_str(text).into_iter::<Value>().next()`:
/// when the first value parses, its pretty form (falling back to the text),
/// `byte_offset()` after it, and the text from that offset on.
#[verifier::external_body]
fn json_prefix(text: &str) -> (r: Option<(String, usize, String)>)
    ensures
        match r {
            Some((p, off, rest)) => spec_json_prefix(text@) == Some((p@, off as int, rest@)),
            None => spec_json_prefix(text@) is None,
        },
{
    let mut stream = serde_json::Deserializer::from_str(text).into_iter::<serde_json::Value>();
    match stream.next() {
        Some(Ok(v)) => {
            let off = stream.byte_offset();
            let p = serde_json::to_string_pretty(&v).unwrap_or_else(|_| text.to_string());
            Some((p, off, text[off..].to_string()))
        },
        _ => None,
    }
}

/// Highlights each line of a pretty-printed JSON text.
pub fn highlight_json_text(pretty: &str, colors: &HighlightColors) -> (t: Text)
    ensures
        text_view(t) == json_text_view(pretty@, *colors),
{
    let cs = chars_of(pretty);
    let rows = split_lines(cs.as_slice());
    let mut lines: Vec<Line> = Vec::new();
    let mut i: usize = 0;
    while i < rows.len()
        invariant
            i <= rows@.len(),
            strings_view(rows@) == lines_of(pretty@),
            lines@.len() == i,
            forall|j: int| 0 <= j < i ==> spans_view(#[trigger] lines@[j].spans@) == json_line_view(
                rows@[j]@,
                *colors,
            ),
        decreases rows@.len() - i,
    {
        assert(strings_view(rows@)[i as int] == rows@[i as int]@);
        let l = highlight_json_line(rows[i].as_str(), colors);
        lines.push(l);
        i = i + 1;
    }
    let t = Text { lines };
    assert(text_view(t) =~= json_text_view(pretty@, *colors)) by {
        assert forall|j: int| 0 <= j < lines@.len() implies text_view(t)[j] == json_text_view(pretty@, *colors)[j] by {
            assert(strings_view(rows@)[j] == rows@[j]@);
        }
    }
    t
}

/// The highlighted lines of `line` when the deserializer read a first value
/// from it: `pretty` is that value printed, `offset` the byte offset after
/// it, `rest` the text from there. When the offset is past the start and the
/// rest is not all whitespace, the value's lines come first and the rest
/// (without trailing whitespace) follows as plain lines; otherwise the line
/// stays as it is.
pub open spec fn tail_view(line: Seq<char>, pretty: Seq<char>, offset: int, rest: Seq<char>, colors: HighlightColors) -> Seq<Seq<SpanV>> {
    let trailing = rest.subrange(0, trim_end_from(rest, rest.len() as int));
    if offset > 0 && trailing.len() > 0 {
        json_text_view(pretty, colors) + lines_of(trailing).map_values(|l: Seq<char>| plain_line_view(l))
    } else {
        seq![plain_line_view(line)]
    }
}

/// A text of the single unstyled line `s`.
fn plain_text(s: &str) -> (t: Text)
    ensures
        text_view(t) == seq![plain_line_view(s@)],
{
    let mut spans: Vec<Span> = Vec::new();
    spans.push(Span::raw(s.to_owned()));
    let mut lines: Vec<Line> = Vec::new();
    lines.push(Line { spans });
    let t = Text { lines };
    assert(spans_view(spans@) =~= plain_line_view(s@));
    assert(text_view(t) =~= seq![plain_line_view(s@)]);
    t
}

/// Highlights a line that starts with a JSON value and goes on with other text.
pub fn highlight_with_tail(line: &str, pretty: &str, offset: usize, rest: &str, colors: &HighlightColors) -> (t: Text)
    ensures
        text_view(t) == tail_view(line@, pretty@, offset as int, rest@, *colors),
{
    let rc = chars_of(rest);
    let end = crate::text::trailing_ws_start(rc.as_slice());
    proof {
        crate::text::lemma_trim_end_bounds(rc@, rc@.len() as int);
    }
    if offset > 0 && end > 0 {
        let head = highlight_json_text(pretty, colors);
        let mut lines = head.lines;
        let mut trailing: Vec<char> = Vec::new();
        let mut j: usize = 0;
        while j < end
            invariant
                j <= end <= rc@.len(),
                trailing@ == rc@.subrange(0, j as int),
            decreases end - j,
        {
            trailing.push(rc[j]);
            j = j + 1;
            assert(trailing@ =~= rc@.subrange(0, j as int));
        }
        let tails = split_lines(trailing.as_slice());
        let ghost n0 = lines@.len();
        let mut i: usize = 0;
        while i < tails.len()
            invariant
                i <= tails@.len(),
                strings_view(tails@) == lines_of(trailing@),
                lines@.len() == n0 + i,
                forall|k: int| 0 <= k < n0 ==> #[trigger] lines@[k] == head.lines@[k],
                forall|k: int| 0 <= k < i ==> spans_view(#[trigger] lines@[n0 + k].spans@) == plain_line_view(tails@[k]@),
                head.lines@.len() == n0,
            decreases tails@.len() - i,
        {
            let mut spans: Vec<Span> = Vec::new();
            spans.push(Span::raw(tails[i].clone()));
            assert(spans_view(spans@) =~= plain_line_view(tails@[i as int]@));
            lines.push(Line { spans });
            i = i + 1;
        }
        let t = Text { lines };
        proof {
            let tv = tail_view(line@, pretty@, offset as int, rest@, *colors);
            let jv = json_text_view(pretty@, *colors);
            assert(trailing@.len() > 0);
            assert(tv == jv + lines_of(trailing@).map_values(|l: Seq<char>| plain_line_view(l)));
            assert(text_view(head) == jv);
            assert forall|k: int| 0 <= k < lines@.len() implies text_view(t)[k] == tv[k] by {
                if k < n0 {
                    assert(text_view(head)[k] == spans_view(head.lines@[k].spans@));
                } else {
                    assert(strings_view(tails@)[k - n0] == tails@[k - n0]@);
                    assert(lines@[n0 + (k - n0)] == lines@[k]);
                }
            }
            assert(text_view(t) =~= tv);
        }
        t
    } else {
        plain_text(line)
    }
}

/// Highlights a line: a JSON value is pretty-printed and colored; a JSON value
/// followed by other text is colored with the text after it; anything else
/// is one unstyled line.
pub open spec fn highlighted_view(line: Seq<char>, colors: HighlightColors) -> Seq<Seq<SpanV>> {
    match spec_pretty_json(line) {
        Some(p) => json_text_view(p, colors),
        None => match spec_json_prefix(line) {
            Some((p, off, rest)) => tail_view(line, p, off, rest, colors),
            None => seq![plain_line_view(line)],
        },
    }
}

/// Highlights a line of JSON or plain text.
pub fn highlight_line(line: &str, colors: &HighlightColors) -> (t: Text)
    ensures
        text_view(t) == highlighted_view(line@, *colors),
{
    match pretty_json(line) {
        Some(p) => highlight_json_text(p.as_str(), colors),
        None => match json_prefix(line) {
            Some((p, off, rest)) => highlight_with_tail(line, p.as_str(), off, rest.as_str(), colors),
            None => plain_text(line),
        },
    }
}

} // verus!
