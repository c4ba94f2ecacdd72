//! The query language: parsing a query into segments, printing it back,
//! matching log lines against it, and `line_format` templates.
use vstd::prelude::*;
use crate::json::{JsonValue, JsonMember, parse_json, spec_parse_json};
use crate::number::{
    display_number, is_number, less_number, number_display, number_less, number_text, numbers_equal,
    same_number,
};
use crate::pattern::{Pattern, regex_compiles, regex_error_message, regex_is_match};
use crate::text::{
    char_is_alphanumeric, char_is_whitespace, chars_of, is_alphanumeric, is_digit, is_space,
    is_whitespace, lemma_scan_while_bounds, scan_while,
    seq_contains, str_contains, string_of,
    string_of_range, trim_chars, trim_seq, decimal, decimal_text, concat_text,
};

verus! {

// ---------------------------------------------------------------------------
// Types and their views
// ---------------------------------------------------------------------------

/// The right-hand side of a condition. A number keeps the literal as written.
#[derive(Debug, Clone, PartialEq)]
pub enum FilterValue {
    String(String),
    Number(String),
    Boolean(bool),
    Null,
}

#[derive(Debug, Clone, Copy, PartialEq, Eq, Structural)]
pub enum FilterOp {
    Contains,
    RegexMatch,
    NotContains,
    NotRegexMatch,
    JsonEquals,
    JsonNotEquals,
    JsonRegexMatch,
    JsonNotRegexMatch,
    JsonGreater,
    JsonGreaterEq,
    JsonLess,
    JsonLessEq,
}

#[derive(Debug, Clone)]
pub struct FilterCondition {
    pub operator: FilterOp,
    pub value: FilterValue,
    pub regex: Option<Pattern>,
    pub json_key: Option<String>,
}

#[derive(Debug)]
pub enum JsonExpr {
    Condition(FilterCondition),
    And(Box<JsonExpr>, Box<JsonExpr>),
    Or(Box<JsonExpr>, Box<JsonExpr>),
}

#[derive(Debug, Clone)]
pub enum TemplatePart {
    Literal(String),
    Key(String),
}

#[derive(Debug, Clone)]
pub struct LineFormatTemplate {
    pub parts: Vec<TemplatePart>,
}

#[derive(Debug)]
pub enum FilterSegment {
    Plain(FilterCondition),
    Json(JsonExpr),
    LineFormat(LineFormatTemplate),
}

#[derive(Debug)]
pub struct FilterQuery {
    pub segments: Vec<FilterSegment>,
}

/// Why a query or template was rejected; positions count characters of the
/// trimmed query.
#[derive(Debug, Clone, PartialEq)]
pub enum FilterError {
    ExpectedDotAfterBrace,
    EmptyKey,
    UnterminatedBrace,
    ExpectedKeyName { pos: usize },
    ExpectedJsonOperator { pos: usize },
    InvalidRegex { err: String },
    ExpectedValue { pos: usize },
    ExpectedParen,
    ExpectedOperator { pos: usize },
    ExpectedTextOperator { pos: usize },
    ExpectedQuote { pos: usize },
    UnterminatedString,
    UnterminatedEscape,
}

/// The message shown for an error.
pub open spec fn error_text(e: ErrorV) -> Seq<char> {
    match e {
        ErrorV::ExpectedDotAfterBrace => "expected '.' after '{{'"@,
        ErrorV::EmptyKey => "empty key in template"@,
        ErrorV::UnterminatedBrace => "unterminated '{{' in template"@,
        ErrorV::ExpectedKeyName { pos } => "expected key name at position "@ + decimal(pos as nat),
        ErrorV::ExpectedJsonOperator { pos } => "expected =, !=, =~, !~, >, >=, < or <= at position "@ + decimal(
            pos as nat,
        ),
        ErrorV::InvalidRegex { err } => "invalid regex: "@ + err,
        ErrorV::ExpectedValue { pos } => "expected value at position "@ + decimal(pos as nat),
        ErrorV::ExpectedParen => "expected ')'"@,
        ErrorV::ExpectedOperator { pos } => "expected operator at position "@ + decimal(pos as nat),
        ErrorV::ExpectedTextOperator { pos } => "expected != or !~ at position "@ + decimal(
            pos as nat,
        ),
        ErrorV::ExpectedQuote { pos } => "expected '\"' at position "@ + decimal(pos as nat),
        ErrorV::UnterminatedString => "unterminated string"@,
        ErrorV::UnterminatedEscape => "unterminated escape sequence"@,
    }
}

impl FilterError {
    /// The message shown for this error.
    pub fn message(&self) -> (r: String)
        ensures
            r@ == error_text(self@),
    {
        match self {
            FilterError::ExpectedDotAfterBrace => "expected '.' after '{{'".to_owned(),
            FilterError::EmptyKey => "empty key in template".to_owned(),
            FilterError::UnterminatedBrace => "unterminated '{{' in template".to_owned(),
            FilterError::ExpectedKeyName { pos } => concat_text(
                "expected key name at position ",
                decimal_text(*pos).as_slice(),
            ),
            FilterError::ExpectedJsonOperator { pos } => concat_text(
                "expected =, !=, =~, !~, >, >=, < or <= at position ",
                decimal_text(*pos).as_slice(),
            ),
            FilterError::InvalidRegex { err } => {
                let e = crate::text::chars_of(err.as_str());
                concat_text("invalid regex: ", e.as_slice())
            },
            FilterError::ExpectedValue { pos } => concat_text(
                "expected value at position ",
                decimal_text(*pos).as_slice(),
            ),
            FilterError::ExpectedParen => "expected ')'".to_owned(),
            FilterError::ExpectedOperator { pos } => concat_text(
                "expected operator at position ",
                decimal_text(*pos).as_slice(),
            ),
            FilterError::ExpectedTextOperator { pos } => concat_text(
                "expected != or !~ at position ",
                decimal_text(*pos).as_slice(),
            ),
            FilterError::ExpectedQuote { pos } => concat_text(
                "expected '\"' at position ",
                decimal_text(*pos).as_slice(),
            ),
            FilterError::UnterminatedString => "unterminated string".to_owned(),
            FilterError::UnterminatedEscape => "unterminated escape sequence".to_owned(),
        }
    }

    /// A copy of this error.
    pub fn duplicate(&self) -> (r: FilterError)
        ensures
            r@ == self@,
    {
        match self {
            FilterError::ExpectedDotAfterBrace => FilterError::ExpectedDotAfterBrace,
            FilterError::EmptyKey => FilterError::EmptyKey,
            FilterError::UnterminatedBrace => FilterError::UnterminatedBrace,
            FilterError::ExpectedKeyName { pos } => FilterError::ExpectedKeyName { pos: *pos },
            FilterError::ExpectedJsonOperator { pos } => FilterError::ExpectedJsonOperator { pos: *pos },
            FilterError::InvalidRegex { err } => FilterError::InvalidRegex { err: err.clone() },
            FilterError::ExpectedValue { pos } => FilterError::ExpectedValue { pos: *pos },
            FilterError::ExpectedParen => FilterError::ExpectedParen,
            FilterError::ExpectedOperator { pos } => FilterError::ExpectedOperator { pos: *pos },
            FilterError::ExpectedTextOperator { pos } => FilterError::ExpectedTextOperator { pos: *pos },
            FilterError::ExpectedQuote { pos } => FilterError::ExpectedQuote { pos: *pos },
            FilterError::UnterminatedString => FilterError::UnterminatedString,
            FilterError::UnterminatedEscape => FilterError::UnterminatedEscape,
        }
    }
}

pub enum ValueV {
    Str(Seq<char>),
    Number(Seq<char>),
    Boolean(bool),
    Null,
}

pub struct ConditionV {
    pub operator: FilterOp,
    pub value: ValueV,
    pub regex: Option<Seq<char>>,
    pub json_key: Option<Seq<char>>,
}

pub enum ExprV {
    Condition(ConditionV),
    And(Box<ExprV>, Box<ExprV>),
    Or(Box<ExprV>, Box<ExprV>),
}

pub enum PartV {
    Literal(Seq<char>),
    Key(Seq<char>),
}

pub enum SegmentV {
    Plain(ConditionV),
    Json(ExprV),
    LineFormat(Seq<PartV>),
}

pub enum ErrorV {
    ExpectedDotAfterBrace,
    EmptyKey,
    UnterminatedBrace,
    ExpectedKeyName { pos: int },
    ExpectedJsonOperator { pos: int },
    InvalidRegex { err: Seq<char> },
    ExpectedValue { pos: int },
    ExpectedParen,
    ExpectedOperator { pos: int },
    ExpectedTextOperator { pos: int },
    ExpectedQuote { pos: int },
    UnterminatedString,
    UnterminatedEscape,
}

impl View for FilterValue {
    type V = ValueV;

    open spec fn view(&self) -> ValueV {
        match self {
            FilterValue::String(s) => ValueV::Str(s@),
            FilterValue::Number(n) => ValueV::Number(n@),
            FilterValue::Boolean(b) => ValueV::Boolean(*b),
            FilterValue::Null => ValueV::Null,
        }
    }
}

impl View for FilterCondition {
    type V = ConditionV;

    open spec fn view(&self) -> ConditionV {
        ConditionV {
            operator: self.operator,
            value: self.value@,
            regex: match self.regex {
                Some(r) => Some(r@),
                None => None,
            },
            json_key: match self.json_key {
                Some(k) => Some(k@),
                None => None,
            },
        }
    }
}

impl View for JsonExpr {
    type V = ExprV;

    open spec fn view(&self) -> ExprV
        decreases self,
    {
        match self {
            JsonExpr::Condition(c) => ExprV::Condition(c@),
            JsonExpr::And(l, r) => ExprV::And(Box::new((**l).view()), Box::new((**r).view())),
            JsonExpr::Or(l, r) => ExprV::Or(Box::new((**l).view()), Box::new((**r).view())),
        }
    }
}

impl View for TemplatePart {
    type V = PartV;

    open spec fn view(&self) -> PartV {
        match self {
            TemplatePart::Literal(s) => PartV::Literal(s@),
            TemplatePart::Key(k) => PartV::Key(k@),
        }
    }
}

impl View for LineFormatTemplate {
    type V = Seq<PartV>;

    open spec fn view(&self) -> Seq<PartV> {
        self.parts@.map_values(|p: TemplatePart| p@)
    }
}

impl View for FilterSegment {
    type V = SegmentV;

    open spec fn view(&self) -> SegmentV {
        match self {
            FilterSegment::Plain(c) => SegmentV::Plain(c@),
            FilterSegment::Json(e) => SegmentV::Json(e@),
            FilterSegment::LineFormat(t) => SegmentV::LineFormat(t@),
        }
    }
}

impl View for FilterQuery {
    type V = Seq<SegmentV>;

    open spec fn view(&self) -> Seq<SegmentV> {
        self.segments@.map_values(|s: FilterSegment| s@)
    }
}

impl View for FilterError {
    type V = ErrorV;

    open spec fn view(&self) -> ErrorV {
        match self {
            FilterError::ExpectedDotAfterBrace => ErrorV::ExpectedDotAfterBrace,
            FilterError::EmptyKey => ErrorV::EmptyKey,
            FilterError::UnterminatedBrace => ErrorV::UnterminatedBrace,
            FilterError::ExpectedKeyName { pos } => ErrorV::ExpectedKeyName { pos: *pos as int },
            FilterError::ExpectedJsonOperator { pos } => ErrorV::ExpectedJsonOperator {
                pos: *pos as int,
            },
            FilterError::InvalidRegex { err } => ErrorV::InvalidRegex { err: err@ },
            FilterError::ExpectedValue { pos } => ErrorV::ExpectedValue { pos: *pos as int },
            FilterError::ExpectedParen => ErrorV::ExpectedParen,
            FilterError::ExpectedOperator { pos } => ErrorV::ExpectedOperator { pos: *pos as int },
            FilterError::ExpectedTextOperator { pos } => ErrorV::ExpectedTextOperator {
                pos: *pos as int,
            },
            FilterError::ExpectedQuote { pos } => ErrorV::ExpectedQuote { pos: *pos as int },
            FilterError::UnterminatedString => ErrorV::UnterminatedString,
            FilterError::UnterminatedEscape => ErrorV::UnterminatedEscape,
        }
    }
}

// ---------------------------------------------------------------------------
// Scanning
// ---------------------------------------------------------------------------

/// Characters allowed in a JSON key of a condition.
pub open spec fn is_key_char(c: char) -> bool {
    char_is_alphanumeric(c) || c == '_' || c == '-' || c == '.'
}

/// Characters allowed in a key of a `line_format` placeholder.
pub open spec fn is_template_key_char(c: char) -> bool {
    char_is_alphanumeric(c) || c == '.' || c == '_'
}

pub open spec fn skip_spaces(cs: Seq<char>, pos: int) -> int {
    scan_while(cs, pos, |c: char| is_space(c))
}

/// Advance `pos` past spaces.
fn skip_whitespace(chars: &[char], pos: &mut usize, len: usize)
    requires
        len == chars@.len(),
        *old(pos) <= len,
    ensures
        *final(pos) == skip_spaces(chars@, *old(pos) as int),
        *old(pos) <= *final(pos) <= len,
{
    proof {
        lemma_scan_while_bounds(chars@, *pos as int, |c: char| is_space(c));
    }
    while *pos < len && chars[*pos] == ' '
        invariant
            len == chars@.len(),
            *pos <= len,
            skip_spaces(chars@, *pos as int) == skip_spaces(chars@, *old(pos) as int),
        decreases len - *pos,
    {
        *pos = *pos + 1;
    }
}

/// Advance from `pos` over characters that are digits.
fn scan_digits(chars: &[char], pos: usize) -> (end: usize)
    requires
        pos <= chars@.len(),
    ensures
        end == scan_while(chars@, pos as int, |c: char| is_digit(c)),
        pos <= end <= chars@.len(),
{
    proof {
        lemma_scan_while_bounds(chars@, pos as int, |c: char| is_digit(c));
    }
    let mut p = pos;
    while p < chars.len() && '0' <= chars[p] && chars[p] <= '9'
        invariant
            pos <= p <= chars@.len(),
            scan_while(chars@, p as int, |c: char| is_digit(c)) == scan_while(
                chars@,
                pos as int,
                |c: char| is_digit(c),
            ),
        decreases chars@.len() - p,
    {
        p = p + 1;
    }
    p
}

/// Advance from `pos` over characters of a condition key.
fn scan_key(chars: &[char], pos: usize) -> (end: usize)
    requires
        pos <= chars@.len(),
    ensures
        end == scan_while(chars@, pos as int, |c: char| is_key_char(c)),
        pos <= end <= chars@.len(),
{
    proof {
        lemma_scan_while_bounds(chars@, pos as int, |c: char| is_key_char(c));
    }
    let mut p = pos;
    while p < chars.len() && (is_alphanumeric(chars[p]) || chars[p] == '_' || chars[p] == '-'
        || chars[p] == '.')
        invariant
            pos <= p <= chars@.len(),
            scan_while(chars@, p as int, |c: char| is_key_char(c)) == scan_while(
                chars@,
                pos as int,
                |c: char| is_key_char(c),
            ),
        decreases chars@.len() - p,
    {
        p = p + 1;
    }
    p
}

/// Advance from `pos` over characters of a template placeholder key.
fn scan_template_key(chars: &[char], pos: usize) -> (end: usize)
    requires
        pos <= chars@.len(),
    ensures
        end == scan_while(chars@, pos as int, |c: char| is_template_key_char(c)),
        pos <= end <= chars@.len(),
{
    proof {
        lemma_scan_while_bounds(chars@, pos as int, |c: char| is_template_key_char(c));
    }
    let mut p = pos;
    while p < chars.len() && (is_alphanumeric(chars[p]) || chars[p] == '.' || chars[p] == '_')
        invariant
            pos <= p <= chars@.len(),
            scan_while(chars@, p as int, |c: char| is_template_key_char(c)) == scan_while(
                chars@,
                pos as int,
                |c: char| is_template_key_char(c),
            ),
        decreases chars@.len() - p,
    {
        p = p + 1;
    }
    p
}

/// Whether the keyword `kw` stands at `pos` as a whole word: followed by a
/// space, a parenthesis, or the end of the input.
pub open spec fn keyword_at(cs: Seq<char>, pos: int, kw: Seq<char>) -> bool {
    &&& 0 <= pos
    &&& pos + kw.len() <= cs.len()
    &&& cs.subrange(pos, pos + kw.len()) == kw
    &&& (pos + kw.len() < cs.len() ==> {
        let next = cs[pos + kw.len()];
        next == ' ' || next == '(' || next == ')'
    })
}

fn is_keyword(chars: &[char], pos: usize, len: usize, keyword: &str) -> (r: bool)
    requires
        len == chars@.len(),
    ensures
        r == keyword_at(chars@, pos as int, keyword@),
{
    let kw_chars = chars_of(keyword);
    let kw_len = kw_chars.len();
    if pos > len || kw_len > len - pos {
        return false;
    }
    let mut i: usize = 0;
    while i < kw_len
        invariant
            kw_len == kw_chars@.len(),
            kw_chars@ == keyword@,
            pos + kw_len <= len,
            len == chars@.len(),
            i <= kw_len,
            forall|k: int| 0 <= k < i ==> chars@[pos + k] == kw_chars@[k],
        decreases kw_len - i,
    {
        if chars[pos + i] != kw_chars[i] {
            assert(chars@.subrange(pos as int, pos + kw_len)[i as int] != keyword@[i as int]);
            return false;
        }
        i = i + 1;
    }
    assert(chars@.subrange(pos as int, pos + kw_len) =~= keyword@);
    if pos + kw_len < len {
        let next = chars[pos + kw_len];
        next == ' ' || next == '(' || next == ')'
    } else {
        true
    }
}

// ---------------------------------------------------------------------------
// Quoted strings
// ---------------------------------------------------------------------------

/// The body of a quoted string from `pos` on, with `acc` already read: a
/// backslash keeps itself and the next character, a quote ends the string.
pub open spec fn quoted_body(cs: Seq<char>, pos: int, acc: Seq<char>) -> Result<
    (Seq<char>, int),
    ErrorV,
>
    decreases cs.len() - pos,
{
    if pos < 0 || pos >= cs.len() {
        Err(ErrorV::UnterminatedString)
    } else if cs[pos] == '\\' {
        if pos + 1 >= cs.len() {
            Err(ErrorV::UnterminatedEscape)
        } else {
            quoted_body(cs, pos + 2, acc.push('\\').push(cs[pos + 1]))
        }
    } else if cs[pos] == '"' {
        Ok((acc, pos + 1))
    } else {
        quoted_body(cs, pos + 1, acc.push(cs[pos]))
    }
}

/// A double-quoted string starting at `pos`: its contents and the position
/// after the closing quote.
pub open spec fn quoted_at(cs: Seq<char>, pos: int) -> Result<(Seq<char>, int), ErrorV> {
    if pos < 0 || pos >= cs.len() || cs[pos] != '"' {
        Err(ErrorV::ExpectedQuote { pos })
    } else {
        quoted_body(cs, pos + 1, Seq::empty())
    }
}

pub proof fn lemma_quoted_body_pos(cs: Seq<char>, pos: int, acc: Seq<char>)
    ensures
        quoted_body(cs, pos, acc) matches Ok((_, p)) ==> pos < p <= cs.len(),
    decreases cs.len() - pos,
{
    if 0 <= pos < cs.len() {
        if cs[pos] == '\\' {
            if pos + 1 < cs.len() {
                lemma_quoted_body_pos(cs, pos + 2, acc.push('\\').push(cs[pos + 1]));
            }
        } else if cs[pos] != '"' {
            lemma_quoted_body_pos(cs, pos + 1, acc.push(cs[pos]));
        }
    }
}

fn parse_quoted_string(chars: &[char], pos: &mut usize, len: usize) -> (r: Result<
    String,
    FilterError,
>)
    requires
        len == chars@.len(),
        *old(pos) <= len,
    ensures
        match quoted_at(chars@, *old(pos) as int) {
            Ok((v, p)) => r matches Ok(s) && s@ == v && *final(pos) == p,
            Err(e) => r matches Err(err) && err@ == e,
        },
        r is Ok ==> *old(pos) < *final(pos) <= len,
{
    if *pos >= len || chars[*pos] != '"' {
        return Err(FilterError::ExpectedQuote { pos: *pos });
    }
    *pos = *pos + 1;
    let ghost start = *pos;
    proof {
        lemma_quoted_body_pos(chars@, start as int, Seq::empty());
    }
    let mut value: Vec<char> = Vec::new();
    loop
        invariant
            len == chars@.len(),
            start <= *pos <= len,
            quoted_body(chars@, *pos as int, value@) == quoted_body(
                chars@,
                start as int,
                Seq::empty(),
            ),
            quoted_at(chars@, *old(pos) as int) == quoted_body(chars@, start as int, Seq::empty()),
            start == *old(pos) + 1,
        decreases len - *pos,
    {
        if *pos >= len {
            return Err(FilterError::UnterminatedString);
        }
        let c = chars[*pos];
        if c == '\\' {
            *pos = *pos + 1;
            if *pos >= len {
                return Err(FilterError::UnterminatedEscape);
            }
            value.push('\\');
            value.push(chars[*pos]);
            *pos = *pos + 1;
        } else if c == '"' {
            *pos = *pos + 1;
            let s = string_of(value.as_slice());
            return Ok(s);
        } else {
            value.push(c);
            *pos = *pos + 1;
        }
    }
}

// ---------------------------------------------------------------------------
// line_format templates
// ---------------------------------------------------------------------------

/// Parse a template from `pos` on. `lit` is where the pending literal text
/// starts and `parts` what has been read so far.
pub open spec fn template_from(cs: Seq<char>, pos: int, lit: int, parts: Seq<PartV>) -> Result<
    Seq<PartV>,
    ErrorV,
>
    decreases cs.len() - pos,
{
    if pos < 0 || pos >= cs.len() {
        Ok(
            if 0 <= lit < cs.len() {
                parts.push(PartV::Literal(cs.subrange(lit, cs.len() as int)))
            } else {
                parts
            },
        )
    } else if cs[pos] == '{' && pos + 1 < cs.len() && cs[pos + 1] == '{' {
        let parts1 = if 0 <= lit < pos {
            parts.push(PartV::Literal(cs.subrange(lit, pos)))
        } else {
            parts
        };
        let p1 = skip_spaces(cs, pos + 2);
        if p1 >= cs.len() || cs[p1] != '.' {
            Err(ErrorV::ExpectedDotAfterBrace)
        } else {
            let key_end = scan_while(cs, p1 + 1, |c: char| is_template_key_char(c));
            if key_end == p1 + 1 {
                Err(ErrorV::EmptyKey)
            } else {
                let p2 = skip_spaces(cs, key_end);
                if p2 + 1 >= cs.len() || cs[p2] != '}' || cs[p2 + 1] != '}' {
                    Err(ErrorV::UnterminatedBrace)
                } else if p2 + 2 <= pos {
                    Err(ErrorV::UnterminatedBrace)
                } else {
                    template_from(
                        cs,
                        p2 + 2,
                        p2 + 2,
                        parts1.push(PartV::Key(cs.subrange(p1 + 1, key_end))),
                    )
                }
            }
        }
    } else {
        template_from(cs, pos + 1, lit, parts)
    }
}

/// The template that `input` describes: literal text with `{{ .key }}`
/// placeholders (spaces allowed inside the braces).
pub open spec fn template_of(input: Seq<char>) -> Result<Seq<PartV>, ErrorV> {
    template_from(input, 0, 0, Seq::empty())
}

pub fn parse_line_format_template(input: &str) -> (r: Result<LineFormatTemplate, FilterError>)
    ensures
        match template_of(input@) {
            Ok(parts) => r matches Ok(t) && t@ == parts,
            Err(e) => r matches Err(err) && err@ == e,
        },
{
    let mut parts: Vec<TemplatePart> = Vec::new();
    let chars = chars_of(input);
    let len = chars.len();
    let mut pos: usize = 0;
    let mut literal_start: usize = 0;
    proof {
        assert(parts@.map_values(|p: TemplatePart| p@) =~= Seq::<PartV>::empty());
    }
    while pos < len
        invariant
            len == chars@.len(),
            chars@ == input@,
            literal_start <= pos <= len,
            template_from(chars@, pos as int, literal_start as int, parts@.map_values(
                |p: TemplatePart| p@,
            )) == template_of(input@),
        decreases len - pos,
    {
        if chars[pos] == '{' && pos + 1 < len && chars[pos + 1] == '{' {
            let ghost before = parts@.map_values(|p: TemplatePart| p@);
            if literal_start < pos {
                let s = string_of_range(chars.as_slice(), literal_start, pos);
                parts.push(TemplatePart::Literal(s));
                assert(parts@.map_values(|p: TemplatePart| p@) =~= before.push(
                    PartV::Literal(chars@.subrange(literal_start as int, pos as int)),
                ));
            }
            let ghost after_lit = parts@.map_values(|p: TemplatePart| p@);
            pos = pos + 2;
            skip_whitespace(chars.as_slice(), &mut pos, len);
            if pos >= len || chars[pos] != '.' {
                return Err(FilterError::ExpectedDotAfterBrace);
            }
            pos = pos + 1;
            let key_start = pos;
            pos = scan_template_key(chars.as_slice(), pos);
            if pos == key_start {
                return Err(FilterError::EmptyKey);
            }
            let key = string_of_range(chars.as_slice(), key_start, pos);
            let ghost key_end = pos;
            skip_whitespace(chars.as_slice(), &mut pos, len);
            if len - pos <= 1 || chars[pos] != '}' || chars[pos + 1] != '}' {
                return Err(FilterError::UnterminatedBrace);
            }
            pos = pos + 2;
            parts.push(TemplatePart::Key(key));
            assert(parts@.map_values(|p: TemplatePart| p@) =~= after_lit.push(
                PartV::Key(chars@.subrange(key_start as int, key_end as int)),
            ));
            literal_start = pos;
        } else {
            pos = pos + 1;
        }
    }
    let ghost before = parts@.map_values(|p: TemplatePart| p@);
    if literal_start < len {
        let s = string_of_range(chars.as_slice(), literal_start, len);
        parts.push(TemplatePart::Literal(s));
        assert(parts@.map_values(|p: TemplatePart| p@) =~= before.push(
            PartV::Literal(chars@.subrange(literal_start as int, len as int)),
        ));
    }
    Ok(LineFormatTemplate { parts })
}

// ---------------------------------------------------------------------------
// JSON key conditions and expressions
// ---------------------------------------------------------------------------

/// Whether a parse step agrees with its specification: on success the value's
/// view and the new position, on failure the error.
pub open spec fn parsed<T: View>(
    spec: Result<(T::V, int), ErrorV>,
    r: Result<T, FilterError>,
    new_pos: int,
) -> bool {
    match spec {
        Ok((v, p)) => r matches Ok(x) && x@ == v && new_pos == p,
        Err(e) => r matches Err(err) && err@ == e,
    }
}

/// The comparison operator of a JSON condition at `pos`: the operator,
/// whether its value is a regex, and the position after it.
pub open spec fn json_operator_at(cs: Seq<char>, pos: int) -> Result<(FilterOp, bool, int), ErrorV> {
    if 0 <= pos && pos + 1 < cs.len() && cs[pos] == '!' {
        if cs[pos + 1] == '=' {
            Ok((FilterOp::JsonNotEquals, false, pos + 2))
        } else if cs[pos + 1] == '~' {
            Ok((FilterOp::JsonNotRegexMatch, true, pos + 2))
        } else {
            Err(ErrorV::ExpectedJsonOperator { pos })
        }
    } else if 0 <= pos < cs.len() && cs[pos] == '=' {
        if pos + 1 < cs.len() && cs[pos + 1] == '~' {
            Ok((FilterOp::JsonRegexMatch, true, pos + 2))
        } else {
            Ok((FilterOp::JsonEquals, false, pos + 1))
        }
    } else if 0 <= pos < cs.len() && (cs[pos] == '>' || cs[pos] == '<') {
        let eq = pos + 1 < cs.len() && cs[pos + 1] == '=';
        let op = if cs[pos] == '>' {
            if eq {
                FilterOp::JsonGreaterEq
            } else {
                FilterOp::JsonGreater
            }
        } else {
            if eq {
                FilterOp::JsonLessEq
            } else {
                FilterOp::JsonLess
            }
        };
        Ok((op, false, if eq { pos + 2 } else { pos + 1 }))
    } else {
        Err(ErrorV::ExpectedJsonOperator { pos })
    }
}

/// Whether the four (or five) characters at `pos` spell `word`.
pub open spec fn word_at(cs: Seq<char>, pos: int, word: Seq<char>) -> bool {
    0 <= pos && pos + word.len() <= cs.len() && cs.subrange(pos, pos + word.len()) == word
}

/// The value of a JSON condition at `pos`: a quoted string (which must compile
/// as a regex when `needs_regex`), `true`, `false`, `null`, or a number
/// (optional sign, digits, optional fraction). Gives the value, the regex
/// pattern if any, and the position after the value.
pub open spec fn json_value_at(cs: Seq<char>, pos: int, needs_regex: bool) -> Result<
    (ValueV, Option<Seq<char>>, int),
    ErrorV,
> {
    if 0 <= pos < cs.len() && cs[pos] == '"' {
        match quoted_at(cs, pos) {
            Err(e) => Err(e),
            Ok((s, p)) => if needs_regex {
                if regex_compiles(s) {
                    Ok((ValueV::Str(s), Some(s), p))
                } else {
                    Err(ErrorV::InvalidRegex { err: regex_error_message(s) })
                }
            } else {
                Ok((ValueV::Str(s), None, p))
            },
        }
    } else if word_at(cs, pos, seq!['t', 'r', 'u', 'e']) {
        Ok((ValueV::Boolean(true), None, pos + 4))
    } else if word_at(cs, pos, seq!['f', 'a', 'l', 's', 'e']) {
        Ok((ValueV::Boolean(false), None, pos + 5))
    } else if word_at(cs, pos, seq!['n', 'u', 'l', 'l']) {
        Ok((ValueV::Null, None, pos + 4))
    } else {
        let q = if 0 <= pos < cs.len() && (cs[pos] == '-' || cs[pos] == '+') {
            pos + 1
        } else {
            pos
        };
        let d = scan_while(cs, q, |c: char| is_digit(c));
        if d == q {
            Err(ErrorV::ExpectedValue { pos })
        } else {
            let e = if d < cs.len() && cs[d] == '.' {
                scan_while(cs, d + 1, |c: char| is_digit(c))
            } else {
                d
            };
            Ok((ValueV::Number(cs.subrange(pos, e)), None, e))
        }
    }
}

/// A condition `key op value` at `pos`.
pub open spec fn json_condition_at(cs: Seq<char>, pos: int) -> Result<(ConditionV, int), ErrorV> {
    let key_end = scan_while(cs, pos, |c: char| is_key_char(c));
    if key_end == pos {
        Err(ErrorV::ExpectedKeyName { pos })
    } else {
        match json_operator_at(cs, skip_spaces(cs, key_end)) {
            Err(e) => Err(e),
            Ok((op, needs_regex, p)) => match json_value_at(cs, skip_spaces(cs, p), needs_regex) {
                Err(e) => Err(e),
                Ok((value, regex, p2)) => Ok(
                    (
                        ConditionV {
                            operator: op,
                            value,
                            regex,
                            json_key: Some(cs.subrange(pos, key_end)),
                        },
                        p2,
                    ),
                ),
            },
        }
    }
}

pub open spec fn kw_and() -> Seq<char> {
    seq!['a', 'n', 'd']
}

pub open spec fn kw_or() -> Seq<char> {
    seq!['o', 'r']
}

pub open spec fn kw_line_format() -> Seq<char> {
    seq!['l', 'i', 'n', 'e', '_', 'f', 'o', 'r', 'm', 'a', 't']
}

/// A parenthesized expression or a single condition, after optional spaces.
pub open spec fn json_primary(cs: Seq<char>, pos: int) -> Result<(ExprV, int), ErrorV>
    decreases cs.len() - pos, 0int,
{
    if pos < 0 || pos > cs.len() {
        Err(ErrorV::ExpectedParen)
    } else {
        let p = skip_spaces(cs, pos);
        proof {
            lemma_scan_while_bounds(cs, pos, |c: char| is_space(c));
        }
        if p < cs.len() && cs[p] == '(' {
            match json_or(cs, p + 1) {
                Err(e) => Err(e),
                Ok((e, p2)) => {
                    let p3 = skip_spaces(cs, p2);
                    if p3 < 0 || p3 >= cs.len() || cs[p3] != ')' {
                        Err(ErrorV::ExpectedParen)
                    } else {
                        Ok((e, p3 + 1))
                    }
                },
            }
        } else {
            match json_condition_at(cs, p) {
                Err(e) => Err(e),
                Ok((c, p2)) => Ok((ExprV::Condition(c), p2)),
            }
        }
    }
}

/// Continue an `and` chain whose left part is `left`, from `pos`.
pub open spec fn json_and_rest(cs: Seq<char>, left: ExprV, pos: int) -> Result<(ExprV, int), ErrorV>
    decreases cs.len() - pos, 1int,
{
    if pos < 0 || pos > cs.len() {
        Ok((left, pos))
    } else {
        let p = skip_spaces(cs, pos);
        proof {
            lemma_scan_while_bounds(cs, pos, |c: char| is_space(c));
        }
        if keyword_at(cs, p, kw_and()) {
            match json_primary(cs, p + 3) {
                Err(e) => Err(e),
                Ok((right, p2)) => if pos < p2 <= cs.len() {
                    json_and_rest(cs, ExprV::And(Box::new(left), Box::new(right)), p2)
                } else {
                    Ok((ExprV::And(Box::new(left), Box::new(right)), p2))
                },
            }
        } else {
            Ok((left, p))
        }
    }
}

/// Conditions joined by `and` (binding tighter than `or`), left-associated.
pub open spec fn json_and(cs: Seq<char>, pos: int) -> Result<(ExprV, int), ErrorV>
    decreases cs.len() - pos, 2int,
{
    if pos < 0 || pos > cs.len() {
        Err(ErrorV::ExpectedParen)
    } else {
        match json_primary(cs, pos) {
            Err(e) => Err(e),
            Ok((left, p)) => if pos <= p <= cs.len() {
                json_and_rest(cs, left, p)
            } else {
                Ok((left, p))
            },
        }
    }
}

/// Continue an `or` chain whose left part is `left`, from `pos`.
pub open spec fn json_or_rest(cs: Seq<char>, left: ExprV, pos: int) -> Result<(ExprV, int), ErrorV>
    decreases cs.len() - pos, 3int,
{
    if pos < 0 || pos > cs.len() {
        Ok((left, pos))
    } else {
        let p = skip_spaces(cs, pos);
        proof {
            lemma_scan_while_bounds(cs, pos, |c: char| is_space(c));
        }
        if keyword_at(cs, p, kw_or()) {
            match json_and(cs, p + 2) {
                Err(e) => Err(e),
                Ok((right, p2)) => if pos < p2 <= cs.len() {
                    json_or_rest(cs, ExprV::Or(Box::new(left), Box::new(right)), p2)
                } else {
                    Ok((ExprV::Or(Box::new(left), Box::new(right)), p2))
                },
            }
        } else {
            Ok((left, p))
        }
    }
}

/// A JSON key expression: `and` groups joined by `or`, left-associated.
pub open spec fn json_or(cs: Seq<char>, pos: int) -> Result<(ExprV, int), ErrorV>
    decreases cs.len() - pos, 4int,
{
    if pos < 0 || pos > cs.len() {
        Err(ErrorV::ExpectedParen)
    } else {
        match json_and(cs, pos) {
            Err(e) => Err(e),
            Ok((left, p)) => if pos <= p <= cs.len() {
                json_or_rest(cs, left, p)
            } else {
                Ok((left, p))
            },
        }
    }
}

fn parse_json_condition(chars: &[char], pos: &mut usize, len: usize) -> (r: Result<
    FilterCondition,
    FilterError,
>)
    requires
        len == chars@.len(),
        *old(pos) <= len,
    ensures
        parsed(json_condition_at(chars@, *old(pos) as int), r, *final(pos) as int),
        r is Ok ==> *old(pos) < *final(pos) <= len,
{
    let key_start = *pos;
    *pos = scan_key(chars, *pos);
    if *pos == key_start {
        return Err(FilterError::ExpectedKeyName { pos: *pos });
    }
    let key = string_of_range(chars, key_start, *pos);
    skip_whitespace(chars, pos, len);
    let op;
    let needs_regex;
    if len - *pos > 1 && chars[*pos] == '!' {
        if chars[*pos + 1] == '=' {
            *pos = *pos + 2;
            op = FilterOp::JsonNotEquals;
            needs_regex = false;
        } else if chars[*pos + 1] == '~' {
            *pos = *pos + 2;
            op = FilterOp::JsonNotRegexMatch;
            needs_regex = true;
        } else {
            return Err(FilterError::ExpectedJsonOperator { pos: *pos });
        }
    } else if *pos < len && chars[*pos] == '=' {
        *pos = *pos + 1;
        if *pos < len && chars[*pos] == '~' {
            *pos = *pos + 1;
            op = FilterOp::JsonRegexMatch;
            needs_regex = true;
        } else {
            op = FilterOp::JsonEquals;
            needs_regex = false;
        }
    } else if *pos < len && (chars[*pos] == '>' || chars[*pos] == '<') {
        let greater = chars[*pos] == '>';
        let eq = len - *pos > 1 && chars[*pos + 1] == '=';
        op = if greater {
            if eq {
                FilterOp::JsonGreaterEq
            } else {
                FilterOp::JsonGreater
            }
        } else {
            if eq {
                FilterOp::JsonLessEq
            } else {
                FilterOp::JsonLess
            }
        };
        *pos = if eq { *pos + 2 } else { *pos + 1 };
        needs_regex = false;
    } else {
        return Err(FilterError::ExpectedJsonOperator { pos: *pos });
    }
    skip_whitespace(chars, pos, len);
    let p = *pos;
    let value;
    let mut regex: Option<Pattern> = None;
    if p < len && chars[p] == '"' {
        let s = parse_quoted_string(chars, pos, len)?;
        if needs_regex {
            match Pattern::new(s.as_str()) {
                Ok(re) => {
                    regex = Some(re);
                },
                Err(e) => {
                    return Err(FilterError::InvalidRegex { err: e });
                },
            }
        }
        value = FilterValue::String(s);
    } else if len - p >= 4 && chars[p] == 't' && chars[p + 1] == 'r' && chars[p + 2] == 'u'
        && chars[p + 3] == 'e' {
        assert(chars@.subrange(p as int, p + 4) =~= seq!['t', 'r', 'u', 'e']);
        *pos = p + 4;
        value = FilterValue::Boolean(true);
    } else if len - p >= 5 && chars[p] == 'f' && chars[p + 1] == 'a' && chars[p + 2] == 'l'
        && chars[p + 3] == 's' && chars[p + 4] == 'e' {
        assert(chars@.subrange(p as int, p + 5) =~= seq!['f', 'a', 'l', 's', 'e']);
        *pos = p + 5;
        value = FilterValue::Boolean(false);
    } else if len - p >= 4 && chars[p] == 'n' && chars[p + 1] == 'u' && chars[p + 2] == 'l'
        && chars[p + 3] == 'l' {
        assert(chars@.subrange(p as int, p + 4) =~= seq!['n', 'u', 'l', 'l']);
        *pos = p + 4;
        value = FilterValue::Null;
    } else {
        proof {
            if len - p >= 4 && chars@.subrange(p as int, p + 4) == seq!['t', 'r', 'u', 'e'] {
                assert(chars@.subrange(p as int, p + 4)[0] == chars@[p as int]);
                assert(chars@.subrange(p as int, p + 4)[1] == chars@[p + 1]);
                assert(chars@.subrange(p as int, p + 4)[2] == chars@[p + 2]);
                assert(chars@.subrange(p as int, p + 4)[3] == chars@[p + 3]);
            }
            if len - p >= 5 && chars@.subrange(p as int, p + 5) == seq!['f', 'a', 'l', 's', 'e'] {
                assert(chars@.subrange(p as int, p + 5)[0] == chars@[p as int]);
                assert(chars@.subrange(p as int, p + 5)[1] == chars@[p + 1]);
                assert(chars@.subrange(p as int, p + 5)[2] == chars@[p + 2]);
                assert(chars@.subrange(p as int, p + 5)[3] == chars@[p + 3]);
                assert(chars@.subrange(p as int, p + 5)[4] == chars@[p + 4]);
            }
            if len - p >= 4 && chars@.subrange(p as int, p + 4) == seq!['n', 'u', 'l', 'l'] {
                assert(chars@.subrange(p as int, p + 4)[0] == chars@[p as int]);
                assert(chars@.subrange(p as int, p + 4)[1] == chars@[p + 1]);
                assert(chars@.subrange(p as int, p + 4)[2] == chars@[p + 2]);
                assert(chars@.subrange(p as int, p + 4)[3] == chars@[p + 3]);
            }
        }
        let mut q = p;
        if q < len && (chars[q] == '-' || chars[q] == '+') {
            q = q + 1;
        }
        let d = scan_digits(chars, q);
        if d == q {
            return Err(FilterError::ExpectedValue { pos: p });
        }
        let mut e = d;
        if d < len && chars[d] == '.' {
            e = scan_digits(chars, d + 1);
        }
        *pos = e;
        value = FilterValue::Number(string_of_range(chars, p, e));
    }
    Ok(FilterCondition { operator: op, value, regex, json_key: Some(key) })
}

fn parse_json_primary(chars: &[char], pos: &mut usize, len: usize) -> (r: Result<
    JsonExpr,
    FilterError,
>)
    requires
        len == chars@.len(),
        *old(pos) <= len,
    ensures
        parsed(json_primary(chars@, *old(pos) as int), r, *final(pos) as int),
        r is Ok ==> *old(pos) < *final(pos) <= len,
    decreases len - *old(pos), 0int,
{
    skip_whitespace(chars, pos, len);
    if *pos < len && chars[*pos] == '(' {
        *pos = *pos + 1;
        let expr = parse_json_or_expr(chars, pos, len)?;
        skip_whitespace(chars, pos, len);
        if *pos >= len || chars[*pos] != ')' {
            return Err(FilterError::ExpectedParen);
        }
        *pos = *pos + 1;
        Ok(expr)
    } else {
        let cond = parse_json_condition(chars, pos, len)?;
        Ok(JsonExpr::Condition(cond))
    }
}

fn parse_json_and_expr(chars: &[char], pos: &mut usize, len: usize) -> (r: Result<
    JsonExpr,
    FilterError,
>)
    requires
        len == chars@.len(),
        *old(pos) <= len,
    ensures
        parsed(json_and(chars@, *old(pos) as int), r, *final(pos) as int),
        r is Ok ==> *old(pos) < *final(pos) <= len,
    decreases len - *old(pos), 2int,
{
    let ghost start = *pos;
    let mut left = parse_json_primary(chars, pos, len)?;
    loop
        invariant_except_break
            len == chars@.len(),
            start == *old(pos),
            start < *pos <= len,
            json_and_rest(chars@, left@, *pos as int) == json_and(chars@, start as int),
        ensures
            start < *pos <= len,
            json_and(chars@, start as int) == Ok::<(ExprV, int), ErrorV>((left@, *pos as int)),
        decreases len - *pos,
    {
        let ghost iter = *pos;
        skip_whitespace(chars, pos, len);
        proof {
            reveal_strlit("and");
            assert("and"@ =~= kw_and());
        }
        if is_keyword(chars, *pos, len, "and") {
            *pos = *pos + 3;
            let right = parse_json_primary(chars, pos, len)?;
            left = JsonExpr::And(Box::new(left), Box::new(right));
        } else {
            break;
        }
    }
    Ok(left)
}

fn parse_json_or_expr(chars: &[char], pos: &mut usize, len: usize) -> (r: Result<
    JsonExpr,
    FilterError,
>)
    requires
        len == chars@.len(),
        *old(pos) <= len,
    ensures
        parsed(json_or(chars@, *old(pos) as int), r, *final(pos) as int),
        r is Ok ==> *old(pos) < *final(pos) <= len,
    decreases len - *old(pos), 4int,
{
    let ghost start = *pos;
    let mut left = parse_json_and_expr(chars, pos, len)?;
    loop
        invariant_except_break
            len == chars@.len(),
            start == *old(pos),
            start < *pos <= len,
            json_or_rest(chars@, left@, *pos as int) == json_or(chars@, start as int),
        ensures
            start < *pos <= len,
            json_or(chars@, start as int) == Ok::<(ExprV, int), ErrorV>((left@, *pos as int)),
        decreases len - *pos,
    {
        skip_whitespace(chars, pos, len);
        proof {
            reveal_strlit("or");
            assert("or"@ =~= kw_or());
        }
        if is_keyword(chars, *pos, len, "or") {
            *pos = *pos + 2;
            let right = parse_json_and_expr(chars, pos, len)?;
            left = JsonExpr::Or(Box::new(left), Box::new(right));
        } else {
            break;
        }
    }
    Ok(left)
}

// ---------------------------------------------------------------------------
// Whole queries
// ---------------------------------------------------------------------------

/// A plain-text condition: the operator and its quoted operand; regex
/// operators carry the operand as their pattern.
pub open spec fn plain_condition(op: FilterOp, v: Seq<char>) -> ConditionV {
    ConditionV {
        operator: op,
        value: ValueV::Str(v),
        regex: if op == FilterOp::RegexMatch || op == FilterOp::NotRegexMatch {
            Some(v)
        } else {
            None
        },
        json_key: None,
    }
}

/// The segment of a plain-text operator `op` whose quoted operand starts
/// (after spaces) at `pos`, and the position after it.
pub open spec fn plain_segment_at(cs: Seq<char>, op: FilterOp, pos: int) -> Result<
    (SegmentV, int),
    ErrorV,
> {
    match quoted_at(cs, skip_spaces(cs, pos)) {
        Err(e) => Err(e),
        Ok((v, p)) => if (op == FilterOp::RegexMatch || op == FilterOp::NotRegexMatch)
            && !regex_compiles(v) {
            Err(ErrorV::InvalidRegex { err: regex_error_message(v) })
        } else {
            Ok((SegmentV::Plain(plain_condition(op, v)), p))
        },
    }
}

/// The segment that follows a lone `|` (spaces skipped from `pos`): a
/// `line_format` directive or a JSON key expression.
pub open spec fn pipe_segment_at(cs: Seq<char>, pos: int) -> Result<(SegmentV, int), ErrorV> {
    let p = skip_spaces(cs, pos);
    if keyword_at(cs, p, kw_line_format()) {
        match quoted_at(cs, skip_spaces(cs, p + 11)) {
            Err(e) => Err(e),
            Ok((t, p2)) => match template_of(t) {
                Err(e) => Err(e),
                Ok(parts) => Ok((SegmentV::LineFormat(parts), p2)),
            },
        }
    } else {
        match json_or(cs, p) {
            Err(e) => Err(e),
            Ok((e, p2)) => Ok((SegmentV::Json(e), p2)),
        }
    }
}

/// The next segment at `p` (a non-space character), and the position after
/// it; bare text takes the rest of the input.
pub open spec fn segment_at(cs: Seq<char>, p: int) -> Result<(SegmentV, int), ErrorV> {
    if cs[p] == '|' {
        if p + 1 < cs.len() && cs[p + 1] == '=' {
            plain_segment_at(cs, FilterOp::Contains, p + 2)
        } else if p + 1 < cs.len() && cs[p + 1] == '~' {
            plain_segment_at(cs, FilterOp::RegexMatch, p + 2)
        } else {
            pipe_segment_at(cs, p + 1)
        }
    } else if cs[p] == '!' {
        if p + 1 >= cs.len() {
            Err(ErrorV::ExpectedOperator { pos: p })
        } else if cs[p + 1] == '=' {
            plain_segment_at(cs, FilterOp::NotContains, p + 2)
        } else if cs[p + 1] == '~' {
            plain_segment_at(cs, FilterOp::NotRegexMatch, p + 2)
        } else {
            Err(ErrorV::ExpectedTextOperator { pos: p })
        }
    } else {
        Ok(
            (
                SegmentV::Plain(plain_condition(FilterOp::Contains, cs.subrange(p, cs.len() as int))),
                cs.len() as int,
            ),
        )
    }
}

/// The segments read from `pos` on, after `segs`.
pub open spec fn segments_from(cs: Seq<char>, pos: int, segs: Seq<SegmentV>) -> Result<
    Seq<SegmentV>,
    ErrorV,
>
    decreases cs.len() - pos,
{
    let p = skip_spaces(cs, pos);
    if pos < 0 || pos >= cs.len() || p >= cs.len() {
        Ok(segs)
    } else {
        match segment_at(cs, p) {
            Err(e) => Err(e),
            Ok((seg, p2)) => if pos < p2 <= cs.len() {
                segments_from(cs, p2, segs.push(seg))
            } else {
                Ok(segs.push(seg))
            },
        }
    }
}

/// The query that `input` describes, read from its trimmed text.
pub open spec fn query_of(input: Seq<char>) -> Result<Seq<SegmentV>, ErrorV> {
    let s = trim_seq(input);
    if s.len() == 0 {
        Ok(Seq::empty())
    } else {
        segments_from(s, 0, Seq::empty())
    }
}

/// Parse a plain-text operand at `pos` for operator `op` into a segment.
fn parse_plain_segment(chars: &[char], pos: &mut usize, len: usize, op: FilterOp) -> (r: Result<
    FilterSegment,
    FilterError,
>)
    requires
        len == chars@.len(),
        *old(pos) <= len,
    ensures
        parsed(plain_segment_at(chars@, op, *old(pos) as int), r, *final(pos) as int),
        r is Ok ==> *old(pos) < *final(pos) <= len,
{
    skip_whitespace(chars, pos, len);
    let value = parse_quoted_string(chars, pos, len)?;
    let is_regex = op == FilterOp::RegexMatch || op == FilterOp::NotRegexMatch;
    let regex = if is_regex {
        match Pattern::new(value.as_str()) {
            Ok(re) => Some(re),
            Err(e) => {
                return Err(FilterError::InvalidRegex { err: e });
            },
        }
    } else {
        None
    };
    Ok(
        FilterSegment::Plain(
            FilterCondition { operator: op, value: FilterValue::String(value), regex, json_key: None },
        ),
    )
}

pub fn parse_filter_query(input: &str) -> (r: Result<FilterQuery, FilterError>)
    ensures
        match query_of(input@) {
            Ok(segs) => r matches Ok(q) && q@ == segs,
            Err(e) => r matches Err(err) && err@ == e,
        },
        r matches Ok(q) ==> query_wf(q@),
{
    proof {
        lemma_query_wf(input@);
    }
    let all = chars_of(input);
    let chars = trim_chars(all.as_slice());
    let len = chars.len();
    let mut segments: Vec<FilterSegment> = Vec::new();
    if len == 0 {
        proof {
            assert(segments@.map_values(|s: FilterSegment| s@) =~= Seq::<SegmentV>::empty());
        }
        return Ok(FilterQuery { segments });
    }
    let mut pos: usize = 0;
    proof {
        assert(segments@.map_values(|s: FilterSegment| s@) =~= Seq::<SegmentV>::empty());
        reveal_strlit("line_format");
        assert("line_format"@ =~= kw_line_format());
    }
    while pos < len
        invariant_except_break
            len == chars@.len(),
            chars@ == trim_seq(input@),
            len > 0,
            pos <= len,
            "line_format"@ == kw_line_format(),
            segments_from(chars@, pos as int, segments@.map_values(|s: FilterSegment| s@))
                == query_of(input@),
        ensures
            query_of(input@) == Ok::<Seq<SegmentV>, ErrorV>(
                segments@.map_values(|s: FilterSegment| s@),
            ),
        decreases len - pos,
    {
        let ghost start = pos;
        let ghost before = segments@.map_values(|s: FilterSegment| s@);
        skip_whitespace(chars.as_slice(), &mut pos, len);
        if pos >= len {
            break;
        }
        let seg;
        if chars[pos] == '|' {
            if len - pos > 1 && chars[pos + 1] == '=' {
                pos = pos + 2;
                seg = parse_plain_segment(chars.as_slice(), &mut pos, len, FilterOp::Contains)?;
            } else if len - pos > 1 && chars[pos + 1] == '~' {
                pos = pos + 2;
                seg = parse_plain_segment(chars.as_slice(), &mut pos, len, FilterOp::RegexMatch)?;
            } else {
                pos = pos + 1;
                skip_whitespace(chars.as_slice(), &mut pos, len);
                if is_keyword(chars.as_slice(), pos, len, "line_format") {
                    pos = pos + 11;
                    skip_whitespace(chars.as_slice(), &mut pos, len);
                    let template_str = parse_quoted_string(chars.as_slice(), &mut pos, len)?;
                    let template = parse_line_format_template(template_str.as_str())?;
                    seg = FilterSegment::LineFormat(template);
                } else {
                    let expr = parse_json_or_expr(chars.as_slice(), &mut pos, len)?;
                    seg = FilterSegment::Json(expr);
                }
            }
        } else if chars[pos] == '!' {
            if len - pos <= 1 {
                return Err(FilterError::ExpectedOperator { pos });
            }
            if chars[pos + 1] == '=' {
                pos = pos + 2;
                seg = parse_plain_segment(chars.as_slice(), &mut pos, len, FilterOp::NotContains)?;
            } else if chars[pos + 1] == '~' {
                pos = pos + 2;
                seg = parse_plain_segment(chars.as_slice(), &mut pos, len, FilterOp::NotRegexMatch)?;
            } else {
                return Err(FilterError::ExpectedTextOperator { pos });
            }
        } else {
            let value = string_of_range(chars.as_slice(), pos, len);
            seg = FilterSegment::Plain(
                FilterCondition {
                    operator: FilterOp::Contains,
                    value: FilterValue::String(value),
                    regex: None,
                    json_key: None,
                },
            );
            pos = len;
        }
        segments.push(seg);
        proof {
            assert(segments@.map_values(|s: FilterSegment| s@) =~= before.push(seg@));
        }
    }
    Ok(FilterQuery { segments })
}

// ---------------------------------------------------------------------------
// JSON lookups
// ---------------------------------------------------------------------------

/// `s.split('.')`: the pieces between dots, empty ones included.
pub open spec fn split_dots(s: Seq<char>) -> Seq<Seq<char>>
    decreases s.len(),
{
    let i = scan_while(s, 0, |c: char| c != '.');
    proof {
        lemma_scan_while_bounds(s, 0, |c: char| c != '.');
    }
    if i >= s.len() {
        seq![s]
    } else {
        seq![s.subrange(0, i)] + split_dots(s.subrange(i + 1, s.len() as int))
    }
}

/// The value of the first member named `key` among `ms[i..]`.
pub open spec fn member_from(ms: Seq<JsonMember>, key: Seq<char>, i: int) -> Option<JsonValue>
    decreases ms.len() - i,
{
    if i < 0 || i >= ms.len() {
        None
    } else if ms[i].key@ == key {
        Some(ms[i].value)
    } else {
        member_from(ms, key, i + 1)
    }
}

/// `Value::get` with a string index: the member `key` of an object.
pub open spec fn json_get(v: JsonValue, key: Seq<char>) -> Option<JsonValue> {
    match v {
        JsonValue::Object(ms, _) => member_from(ms@, key, 0),
        _ => None,
    }
}

pub open spec fn lookup_parts(v: JsonValue, parts: Seq<Seq<char>>) -> Option<JsonValue>
    decreases parts.len(),
{
    if parts.len() == 0 {
        Some(v)
    } else {
        match json_get(v, parts[0]) {
            Some(c) => lookup_parts(c, parts.drop_first()),
            None => None,
        }
    }
}

/// The value at the dotted path `key` (`user.name` is member `name` of member `user`).
pub open spec fn lookup_key(v: JsonValue, key: Seq<char>) -> Option<JsonValue> {
    lookup_parts(v, split_dots(key))
}

/// A value as text: strings without quotes, numbers as printed, `true`,
/// `false`, `null`, and arrays and objects in compact JSON.
pub open spec fn json_text(v: JsonValue) -> Seq<char> {
    match v {
        JsonValue::String(s) => s@,
        JsonValue::Number(n) => n@,
        JsonValue::Bool(b) => if b {
            seq!['t', 'r', 'u', 'e']
        } else {
            seq!['f', 'a', 'l', 's', 'e']
        },
        JsonValue::Null => seq!['n', 'u', 'l', 'l'],
        JsonValue::Array(_, t) => t@,
        JsonValue::Object(_, t) => t@,
    }
}

/// Whether a JSON value equals a query value of the same kind (numbers by
/// decimal value).
pub open spec fn json_equals(a: JsonValue, e: ValueV) -> bool {
    match (a, e) {
        (JsonValue::String(s), ValueV::Str(x)) => s@ == x,
        (JsonValue::Number(n), ValueV::Number(x)) => same_number(n@, x),
        (JsonValue::Bool(b), ValueV::Boolean(x)) => b == x,
        (JsonValue::Null, ValueV::Null) => true,
        _ => false,
    }
}

/// `key.split('.')` as strings.
fn split_key(key: &str) -> (parts: Vec<String>)
    ensures
        parts@.map_values(|s: String| s@) == split_dots(key@),
{
    let cs = chars_of(key);
    let n = cs.len();
    let mut parts: Vec<String> = Vec::new();
    let mut start: usize = 0;
    proof {
        assert(cs@.subrange(0, n as int) =~= cs@);
        assert(parts@.map_values(|s: String| s@) + split_dots(cs@.subrange(0, n as int))
            =~= split_dots(key@));
    }
    loop
        invariant
            n == cs@.len(),
            cs@ == key@,
            start <= n,
            parts@.map_values(|s: String| s@) + split_dots(cs@.subrange(start as int, n as int))
                == split_dots(key@),
        decreases n - start,
    {
        let ghost rest = cs@.subrange(start as int, n as int);
        let mut i = start;
        while i < n && cs[i] != '.'
            invariant
                start <= i <= n == cs@.len(),
                rest == cs@.subrange(start as int, n as int),
                scan_while(rest, (i - start) as int, |c: char| c != '.') == scan_while(
                    rest,
                    0,
                    |c: char| c != '.',
                ),
            decreases n - i,
        {
            i = i + 1;
        }
        let ghost before = parts@.map_values(|s: String| s@);
        let piece = string_of_range(cs.as_slice(), start, i);
        parts.push(piece);
        assert(rest.subrange(0, (i - start) as int) =~= cs@.subrange(start as int, i as int));
        if i >= n {
            assert(parts@.map_values(|s: String| s@) =~= before + seq![rest]);
            return parts;
        }
        assert(rest.subrange((i - start) + 1, rest.len() as int) =~= cs@.subrange(
            i + 1,
            n as int,
        ));
        assert(parts@.map_values(|s: String| s@) =~= before.push(
            cs@.subrange(start as int, i as int),
        ));
        assert(seq![rest.subrange(0, (i - start) as int)] + split_dots(
            rest.subrange((i - start) + 1, rest.len() as int),
        ) == split_dots(rest));
        assert(parts@.map_values(|s: String| s@) + split_dots(
            cs@.subrange(i + 1, n as int),
        ) =~= before + split_dots(rest));
        start = i + 1;
    }
}

/// The member `key` of `value` if it is an object.
fn json_get_member<'a>(value: &'a JsonValue, key: &String) -> (r: Option<&'a JsonValue>)
    ensures
        match json_get(*value, key@) {
            Some(v) => r matches Some(x) && *x == v,
            None => r is None,
        },
{
    match value {
        JsonValue::Object(ms, _) => {
            let mut i: usize = 0;
            while i < ms.len()
                invariant
                    i <= ms@.len(),
                    member_from(ms@, key@, i as int) == json_get(*value, key@),
                decreases ms@.len() - i,
            {
                if ms[i].key == *key {
                    return Some(&ms[i].value);
                }
                i = i + 1;
            }
            None
        },
        _ => None,
    }
}

/// The value at the dotted path `key` inside `value`.
pub fn lookup_json_key<'a>(value: &'a JsonValue, key: &str) -> (r: Option<&'a JsonValue>)
    ensures
        match lookup_key(*value, key@) {
            Some(v) => r matches Some(x) && *x == v,
            None => r is None,
        },
{
    let parts = split_key(key);
    let mut current: &JsonValue = value;
    let mut i: usize = 0;
    assert(parts@.map_values(|s: String| s@).skip(0) =~= parts@.map_values(|s: String| s@));
    while i < parts.len()
        invariant
            i <= parts@.len(),
            lookup_parts(*current, parts@.map_values(|s: String| s@).skip(i as int)) == lookup_key(
                *value,
                key@,
            ),
        decreases parts@.len() - i,
    {
        let ghost ps = parts@.map_values(|s: String| s@).skip(i as int);
        assert(ps[0] == parts@[i as int]@);
        assert(ps.drop_first() =~= parts@.map_values(|s: String| s@).skip(i + 1));
        match json_get_member(current, &parts[i]) {
            Some(next) => {
                current = next;
            },
            None => {
                return None;
            },
        }
        i = i + 1;
    }
    Some(current)
}

/// A JSON value as text (see `json_text`).
pub fn json_value_to_string(value: &JsonValue) -> (r: String)
    ensures
        r@ == json_text(*value),
{
    proof {
        reveal_strlit("true");
        reveal_strlit("false");
        reveal_strlit("null");
    }
    match value {
        JsonValue::String(s) => s.clone(),
        JsonValue::Number(n) => n.clone(),
        JsonValue::Bool(b) => if *b {
            let r = "true".to_owned();
            assert(r@ =~= seq!['t', 'r', 'u', 'e']);
            r
        } else {
            let r = "false".to_owned();
            assert(r@ =~= seq!['f', 'a', 'l', 's', 'e']);
            r
        },
        JsonValue::Null => {
            let r = "null".to_owned();
            assert(r@ =~= seq!['n', 'u', 'l', 'l']);
            r
        },
        JsonValue::Array(_, t) => t.clone(),
        JsonValue::Object(_, t) => t.clone(),
    }
}

/// Whether `actual` equals `expected` (see `json_equals`).
pub fn compare_json_value(actual: &JsonValue, expected: &FilterValue) -> (r: bool)
    ensures
        r == json_equals(*actual, expected@),
{
    match (actual, expected) {
        (JsonValue::String(s), FilterValue::String(e)) => *s == *e,
        (JsonValue::Number(n), FilterValue::Number(e)) => {
            let a = chars_of(n.as_str());
            let b = chars_of(e.as_str());
            numbers_equal(a.as_slice(), b.as_slice())
        },
        (JsonValue::Bool(b), FilterValue::Boolean(e)) => *b == *e,
        (JsonValue::Null, FilterValue::Null) => true,
        _ => false,
    }
}

/// Whether the ordering condition `actual op expected` holds (see
/// `json_order_holds`).
pub fn compare_json_order(op: FilterOp, actual: &JsonValue, expected: &FilterValue) -> (r: bool)
    ensures
        r == json_order_holds(op, *actual, expected@),
{
    match (actual, expected) {
        (JsonValue::Number(n), FilterValue::Number(e)) => {
            let a = chars_of(n.as_str());
            let b = chars_of(e.as_str());
            match op {
                FilterOp::JsonGreater => number_less(b.as_slice(), a.as_slice()),
                FilterOp::JsonGreaterEq => number_text(a.as_slice()) && number_text(b.as_slice())
                    && !number_less(a.as_slice(), b.as_slice()),
                FilterOp::JsonLess => number_less(a.as_slice(), b.as_slice()),
                FilterOp::JsonLessEq => number_text(a.as_slice()) && number_text(b.as_slice())
                    && !number_less(b.as_slice(), a.as_slice()),
                _ => false,
            }
        },
        _ => false,
    }
}

// ---------------------------------------------------------------------------
// Matching
// ---------------------------------------------------------------------------

/// Whether a plain-text condition holds of `text`. A regex operator whose
/// condition holds no regex matches nothing.
pub open spec fn plain_holds(c: ConditionV, text: Seq<char>) -> bool {
    match c.operator {
        FilterOp::Contains => match c.value {
            ValueV::Str(s) => seq_contains(text, s),
            _ => false,
        },
        FilterOp::NotContains => match c.value {
            ValueV::Str(s) => !seq_contains(text, s),
            _ => false,
        },
        FilterOp::RegexMatch => match c.regex {
            Some(p) => regex_is_match(p, text),
            None => false,
        },
        FilterOp::NotRegexMatch => match c.regex {
            Some(p) => !regex_is_match(p, text),
            None => false,
        },
        _ => false,
    }
}

/// Whether an ordering condition `t op x` holds: only a number compared with
/// a number, by decimal value (see `less_number`); any other pair fails.
pub open spec fn json_order_holds(op: FilterOp, t: JsonValue, x: ValueV) -> bool {
    match (t, x) {
        (JsonValue::Number(n), ValueV::Number(v)) => match op {
            FilterOp::JsonGreater => less_number(v, n@),
            FilterOp::JsonGreaterEq => is_number(n@) && is_number(v) && !less_number(n@, v),
            FilterOp::JsonLess => less_number(n@, v),
            FilterOp::JsonLessEq => is_number(n@) && is_number(v) && !less_number(v, n@),
            _ => false,
        },
        _ => false,
    }
}

/// Whether a JSON key condition holds of the parsed value `v`. A missing key
/// satisfies only the negated operators; a regex operator whose condition
/// holds no regex (its value was not a string) matches nothing; the ordering
/// operators compare numbers only.
pub open spec fn json_condition_holds(c: ConditionV, v: JsonValue) -> bool {
    match c.json_key {
        None => false,
        Some(key) => match lookup_key(v, key) {
            None => c.operator == FilterOp::JsonNotEquals || c.operator
                == FilterOp::JsonNotRegexMatch,
            Some(t) => match c.operator {
                FilterOp::JsonEquals => json_equals(t, c.value),
                FilterOp::JsonNotEquals => !json_equals(t, c.value),
                FilterOp::JsonRegexMatch => match c.regex {
                    Some(p) => regex_is_match(p, json_text(t)),
                    None => false,
                },
                FilterOp::JsonNotRegexMatch => match c.regex {
                    Some(p) => !regex_is_match(p, json_text(t)),
                    None => false,
                },
                FilterOp::JsonGreater | FilterOp::JsonGreaterEq | FilterOp::JsonLess
                | FilterOp::JsonLessEq => json_order_holds(c.operator, t, c.value),
                _ => false,
            },
        },
    }
}

/// Whether a JSON condition holds of the line `text`: it must parse as JSON.
pub open spec fn json_holds(c: ConditionV, text: Seq<char>) -> bool {
    match spec_parse_json(text) {
        Some(v) => json_condition_holds(c, v),
        None => false,
    }
}

pub open spec fn expr_holds(e: ExprV, text: Seq<char>) -> bool
    decreases e,
{
    match e {
        ExprV::Condition(c) => json_holds(c, text),
        ExprV::And(l, r) => expr_holds(*l, text) && expr_holds(*r, text),
        ExprV::Or(l, r) => expr_holds(*l, text) || expr_holds(*r, text),
    }
}

/// Whether a segment admits `text`; `line_format` admits every line.
pub open spec fn segment_holds(s: SegmentV, text: Seq<char>) -> bool {
    match s {
        SegmentV::Plain(c) => plain_holds(c, text),
        SegmentV::Json(e) => expr_holds(e, text),
        SegmentV::LineFormat(_) => true,
    }
}

/// A line matches a query when every segment admits it.
pub open spec fn query_holds(q: Seq<SegmentV>, text: Seq<char>) -> bool {
    forall|i: int| 0 <= i < q.len() ==> segment_holds(#[trigger] q[i], text)
}

impl FilterCondition {
    pub fn plain_matches(&self, text: &str) -> (r: bool)
        ensures
            r == plain_holds(self@, text@),
    {
        match self.operator {
            FilterOp::Contains => match &self.value {
                FilterValue::String(s) => str_contains(text, s.as_str()),
                _ => false,
            },
            FilterOp::NotContains => match &self.value {
                FilterValue::String(s) => !str_contains(text, s.as_str()),
                _ => false,
            },
            FilterOp::RegexMatch => match &self.regex {
                Some(re) => re.is_match(text),
                None => false,
            },
            FilterOp::NotRegexMatch => match &self.regex {
                Some(re) => !re.is_match(text),
                None => false,
            },
            _ => false,
        }
    }

    pub fn json_matches(&self, text: &str) -> (r: bool)
        ensures
            r == json_holds(self@, text@),
    {
        let value = match parse_json(text) {
            Some(v) => v,
            None => {
                return false;
            },
        };
        let key = match &self.json_key {
            Some(k) => k,
            None => {
                return false;
            },
        };
        let target = match lookup_json_key(&value, key.as_str()) {
            Some(t) => t,
            None => {
                return self.operator == FilterOp::JsonNotEquals || self.operator
                    == FilterOp::JsonNotRegexMatch;
            },
        };
        match self.operator {
            FilterOp::JsonEquals => compare_json_value(target, &self.value),
            FilterOp::JsonNotEquals => !compare_json_value(target, &self.value),
            FilterOp::JsonRegexMatch => match &self.regex {
                Some(re) => {
                    let s = json_value_to_string(target);
                    re.is_match(s.as_str())
                },
                None => false,
            },
            FilterOp::JsonNotRegexMatch => match &self.regex {
                Some(re) => {
                    let s = json_value_to_string(target);
                    !re.is_match(s.as_str())
                },
                None => false,
            },
            FilterOp::JsonGreater | FilterOp::JsonGreaterEq | FilterOp::JsonLess
            | FilterOp::JsonLessEq => compare_json_order(self.operator, target, &self.value),
            _ => false,
        }
    }
}

impl JsonExpr {
    pub fn matches(&self, text: &str) -> (r: bool)
        ensures
            r == expr_holds(self@, text@),
        decreases self,
    {
        match self {
            JsonExpr::Condition(c) => c.json_matches(text),
            JsonExpr::And(l, r) => l.matches(text) && r.matches(text),
            JsonExpr::Or(l, r) => l.matches(text) || r.matches(text),
        }
    }
}

impl FilterSegment {
    pub fn matches(&self, text: &str) -> (r: bool)
        ensures
            r == segment_holds(self@, text@),
    {
        match self {
            FilterSegment::Plain(c) => c.plain_matches(text),
            FilterSegment::Json(expr) => expr.matches(text),
            FilterSegment::LineFormat(_) => true,
        }
    }
}

impl FilterQuery {
    pub fn matches(&self, text: &str) -> (r: bool)
        ensures
            r == query_holds(self@, text@),
    {
        let n = self.segments.len();
        let mut i: usize = 0;
        while i < n
            invariant
                n == self.segments@.len(),
                i <= n,
                forall|k: int| 0 <= k < i ==> segment_holds(#[trigger] self@[k], text@),
            decreases n - i,
        {
            if !self.segments[i].matches(text) {
                assert(!segment_holds(self@[i as int], text@));
                return false;
            }
            i = i + 1;
        }
        true
    }
}

// ---------------------------------------------------------------------------
// Well-formedness and printing
// ---------------------------------------------------------------------------

pub open spec fn is_plain_op(op: FilterOp) -> bool {
    op == FilterOp::Contains || op == FilterOp::RegexMatch || op == FilterOp::NotContains || op
        == FilterOp::NotRegexMatch
}

pub open spec fn is_json_op(op: FilterOp) -> bool {
    !is_plain_op(op)
}

/// Every condition of the expression is a JSON comparison with a key.
pub open spec fn expr_wf(e: ExprV) -> bool
    decreases e,
{
    match e {
        ExprV::Condition(c) => is_json_op(c.operator) && c.json_key is Some,
        ExprV::And(l, r) => expr_wf(*l) && expr_wf(*r),
        ExprV::Or(l, r) => expr_wf(*l) && expr_wf(*r),
    }
}

/// Plain segments use plain-text operators and JSON segments are well formed.
pub open spec fn segment_wf(s: SegmentV) -> bool {
    match s {
        SegmentV::Plain(c) => is_plain_op(c.operator),
        SegmentV::Json(e) => expr_wf(e),
        SegmentV::LineFormat(_) => true,
    }
}

/// The shape every parsed query has; it is what printing a query needs.
pub open spec fn query_wf(q: Seq<SegmentV>) -> bool {
    forall|i: int| 0 <= i < q.len() ==> segment_wf(#[trigger] q[i])
}

pub proof fn lemma_condition_wf(cs: Seq<char>, pos: int)
    ensures
        json_condition_at(cs, pos) matches Ok((c, _)) ==> is_json_op(c.operator) && c.json_key is Some,
{
}

pub proof fn lemma_primary_wf(cs: Seq<char>, pos: int)
    ensures
        json_primary(cs, pos) matches Ok((e, _)) ==> expr_wf(e),
    decreases cs.len() - pos, 0int,
{
    if 0 <= pos <= cs.len() {
        let p = skip_spaces(cs, pos);
        lemma_scan_while_bounds(cs, pos, |c: char| is_space(c));
        if p < cs.len() && cs[p] == '(' {
            lemma_or_wf(cs, p + 1);
        } else {
            lemma_condition_wf(cs, p);
        }
    }
}

pub proof fn lemma_and_rest_wf(cs: Seq<char>, left: ExprV, pos: int)
    requires
        expr_wf(left),
    ensures
        json_and_rest(cs, left, pos) matches Ok((e, _)) ==> expr_wf(e),
    decreases cs.len() - pos, 1int,
{
    if 0 <= pos <= cs.len() {
        let p = skip_spaces(cs, pos);
        lemma_scan_while_bounds(cs, pos, |c: char| is_space(c));
        if keyword_at(cs, p, kw_and()) {
            lemma_primary_wf(cs, p + 3);
            match json_primary(cs, p + 3) {
                Err(_) => {},
                Ok((right, p2)) => {
                    let joined = ExprV::And(Box::new(left), Box::new(right));
                    assert(expr_wf(joined));
                    if pos < p2 <= cs.len() {
                        lemma_and_rest_wf(cs, joined, p2);
                    }
                },
            }
        }
    }
}

pub proof fn lemma_and_wf(cs: Seq<char>, pos: int)
    ensures
        json_and(cs, pos) matches Ok((e, _)) ==> expr_wf(e),
    decreases cs.len() - pos, 2int,
{
    if 0 <= pos <= cs.len() {
        lemma_primary_wf(cs, pos);
        match json_primary(cs, pos) {
            Err(_) => {},
            Ok((left, p)) => {
                if pos <= p <= cs.len() {
                    lemma_and_rest_wf(cs, left, p);
                }
            },
        }
    }
}

pub proof fn lemma_or_rest_wf(cs: Seq<char>, left: ExprV, pos: int)
    requires
        expr_wf(left),
    ensures
        json_or_rest(cs, left, pos) matches Ok((e, _)) ==> expr_wf(e),
    decreases cs.len() - pos, 3int,
{
    if 0 <= pos <= cs.len() {
        let p = skip_spaces(cs, pos);
        lemma_scan_while_bounds(cs, pos, |c: char| is_space(c));
        if keyword_at(cs, p, kw_or()) {
            lemma_and_wf(cs, p + 2);
            match json_and(cs, p + 2) {
                Err(_) => {},
                Ok((right, p2)) => {
                    let joined = ExprV::Or(Box::new(left), Box::new(right));
                    assert(expr_wf(joined));
                    if pos < p2 <= cs.len() {
                        lemma_or_rest_wf(cs, joined, p2);
                    }
                },
            }
        }
    }
}

pub proof fn lemma_or_wf(cs: Seq<char>, pos: int)
    ensures
        json_or(cs, pos) matches Ok((e, _)) ==> expr_wf(e),
    decreases cs.len() - pos, 4int,
{
    if 0 <= pos <= cs.len() {
        lemma_and_wf(cs, pos);
        match json_and(cs, pos) {
            Err(_) => {},
            Ok((left, p)) => {
                if pos <= p <= cs.len() {
                    lemma_or_rest_wf(cs, left, p);
                }
            },
        }
    }
}

pub proof fn lemma_segment_wf(cs: Seq<char>, p: int)
    requires
        0 <= p < cs.len(),
    ensures
        segment_at(cs, p) matches Ok((s, _)) ==> segment_wf(s),
{
    lemma_or_wf(cs, skip_spaces(cs, p + 1));
}

pub proof fn lemma_segments_wf(cs: Seq<char>, pos: int, segs: Seq<SegmentV>)
    requires
        query_wf(segs),
    ensures
        segments_from(cs, pos, segs) matches Ok(q) ==> query_wf(q),
    decreases cs.len() - pos,
{
    let p = skip_spaces(cs, pos);
    if !(pos < 0 || pos >= cs.len() || p >= cs.len()) {
        lemma_scan_while_bounds(cs, pos, |c: char| is_space(c));
        lemma_segment_wf(cs, p);
        match segment_at(cs, p) {
            Err(_) => {},
            Ok((seg, p2)) => {
                let more = segs.push(seg);
                assert(query_wf(more)) by {
                    assert forall|i: int| 0 <= i < more.len() implies segment_wf(#[trigger] more[i]) by {
                        if i < segs.len() {
                            assert(more[i] == segs[i]);
                        }
                    }
                }
                if pos < p2 <= cs.len() {
                    lemma_segments_wf(cs, p2, more);
                }
            },
        }
    }
}

/// Every query that parses has the well-formed shape that printing needs.
pub proof fn lemma_query_wf(input: Seq<char>)
    ensures
        query_of(input) matches Ok(q) ==> query_wf(q),
{
    lemma_segments_wf(trim_seq(input), 0, Seq::empty());
}

pub open spec fn value_display(v: ValueV) -> Seq<char> {
    match v {
        ValueV::Str(s) => seq!['"'] + s + seq!['"'],
        ValueV::Number(n) => number_display(n),
        ValueV::Boolean(b) => if b {
            seq!['t', 'r', 'u', 'e']
        } else {
            seq!['f', 'a', 'l', 's', 'e']
        },
        ValueV::Null => seq!['n', 'u', 'l', 'l'],
    }
}

pub open spec fn plain_op_text(op: FilterOp) -> Seq<char> {
    match op {
        FilterOp::Contains => seq!['|', '='],
        FilterOp::RegexMatch => seq!['|', '~'],
        FilterOp::NotContains => seq!['!', '='],
        FilterOp::NotRegexMatch => seq!['!', '~'],
        _ => Seq::empty(),
    }
}

pub open spec fn json_op_text(op: FilterOp) -> Seq<char> {
    match op {
        FilterOp::JsonEquals => seq!['='],
        FilterOp::JsonNotEquals => seq!['!', '='],
        FilterOp::JsonRegexMatch => seq!['=', '~'],
        FilterOp::JsonNotRegexMatch => seq!['!', '~'],
        FilterOp::JsonGreater => seq!['>'],
        FilterOp::JsonGreaterEq => seq!['>', '='],
        FilterOp::JsonLess => seq!['<'],
        FilterOp::JsonLessEq => seq!['<', '='],
        _ => Seq::empty(),
    }
}

/// A JSON expression as query text; an `or` inside an `and` is parenthesized.
pub open spec fn expr_display(e: ExprV, parent_is_and: bool) -> Seq<char>
    decreases e,
{
    match e {
        ExprV::Condition(c) => c.json_key.unwrap() + seq![' '] + json_op_text(c.operator) + seq![
            ' ',
        ] + value_display(c.value),
        ExprV::And(l, r) => expr_display(*l, true) + seq![' ', 'a', 'n', 'd', ' '] + expr_display(
            *r,
            true,
        ),
        ExprV::Or(l, r) => {
            let inner = expr_display(*l, false) + seq![' ', 'o', 'r', ' '] + expr_display(
                *r,
                false,
            );
            if parent_is_and {
                seq!['('] + inner + seq![')']
            } else {
                inner
            }
        },
    }
}

pub open spec fn part_text(p: PartV) -> Seq<char> {
    match p {
        PartV::Literal(s) => s,
        PartV::Key(k) => seq!['{', '{', ' ', '.'] + k + seq![' ', '}', '}'],
    }
}

/// A template written back as template text.
pub open spec fn template_text(parts: Seq<PartV>) -> Seq<char>
    decreases parts.len(),
{
    if parts.len() == 0 {
        Seq::empty()
    } else {
        template_text(parts.drop_last()) + part_text(parts.last())
    }
}

pub open spec fn segment_display(s: SegmentV) -> Seq<char> {
    match s {
        SegmentV::Plain(c) => plain_op_text(c.operator) + seq![' '] + value_display(c.value),
        SegmentV::Json(e) => seq!['|', ' '] + expr_display(e, false),
        SegmentV::LineFormat(t) => seq![
            '|',
            ' ',
            'l',
            'i',
            'n',
            'e',
            '_',
            'f',
            'o',
            'r',
            'm',
            'a',
            't',
            ' ',
            '"',
        ] + template_text(t) + seq!['"'],
    }
}

/// The segments printed one after another, separated by single spaces.
pub open spec fn query_display(q: Seq<SegmentV>) -> Seq<char>
    decreases q.len(),
{
    if q.len() == 0 {
        Seq::empty()
    } else if q.len() == 1 {
        segment_display(q[0])
    } else {
        query_display(q.drop_last()) + seq![' '] + segment_display(q.last())
    }
}

fn push_chars(out: &mut Vec<char>, v: &[char])
    ensures
        final(out)@ == old(out)@ + v@,
{
    let ghost start = out@;
    let mut i: usize = 0;
    while i < v.len()
        invariant
            i <= v@.len(),
            out@ == start + v@.subrange(0, i as int),
        decreases v@.len() - i,
    {
        out.push(v[i]);
        i = i + 1;
        assert(out@ =~= start + v@.subrange(0, i as int));
    }
    assert(v@.subrange(0, v@.len() as int) =~= v@);
}

fn push_str(out: &mut Vec<char>, s: &str)
    ensures
        final(out)@ == old(out)@ + s@,
{
    let cs = chars_of(s);
    push_chars(out, cs.as_slice());
}

impl FilterValue {
    fn display_into(&self, out: &mut Vec<char>)
        ensures
            final(out)@ == old(out)@ + value_display(self@),
    {
        let ghost start = out@;
        match self {
            FilterValue::String(s) => {
                out.push('"');
                push_str(out, s.as_str());
                out.push('"');
            },
            FilterValue::Number(n) => {
                let cs = chars_of(n.as_str());
                let d = display_number(cs.as_slice());
                push_chars(out, d.as_slice());
            },
            FilterValue::Boolean(b) => {
                if *b {
                    out.push('t');
                    out.push('r');
                    out.push('u');
                    out.push('e');
                } else {
                    out.push('f');
                    out.push('a');
                    out.push('l');
                    out.push('s');
                    out.push('e');
                }
            },
            FilterValue::Null => {
                out.push('n');
                out.push('u');
                out.push('l');
                out.push('l');
            },
        }
        assert(out@ =~= start + value_display(self@));
    }

    /// The value as query text: strings quoted, numbers by value.
    pub fn display_string(&self) -> (r: String)
        ensures
            r@ == value_display(self@),
    {
        let mut out: Vec<char> = Vec::new();
        self.display_into(&mut out);
        assert(out@ =~= value_display(self@));
        string_of(out.as_slice())
    }
}

fn push_op(out: &mut Vec<char>, a: char, b: Option<char>)
    ensures
        final(out)@ == old(out)@ + match b {
            Some(c) => seq![a, c],
            None => seq![a],
        },
{
    let ghost start = out@;
    out.push(a);
    if let Some(c) = b {
        out.push(c);
    }
    assert(out@ =~= start + match b {
        Some(c) => seq![a, c],
        None => seq![a],
    });
}

impl JsonExpr {
    fn display_into(&self, parent_is_and: bool, out: &mut Vec<char>)
        requires
            expr_wf(self@),
        ensures
            final(out)@ == old(out)@ + expr_display(self@, parent_is_and),
        decreases self,
    {
        let ghost start = out@;
        match self {
            JsonExpr::Condition(c) => {
                match &c.json_key {
                    Some(k) => push_str(out, k.as_str()),
                    None => {},
                }
                out.push(' ');
                match c.operator {
                    FilterOp::JsonEquals => push_op(out, '=', None),
                    FilterOp::JsonNotEquals => push_op(out, '!', Some('=')),
                    FilterOp::JsonRegexMatch => push_op(out, '=', Some('~')),
                    FilterOp::JsonGreater => push_op(out, '>', None),
                    FilterOp::JsonGreaterEq => push_op(out, '>', Some('=')),
                    FilterOp::JsonLess => push_op(out, '<', None),
                    FilterOp::JsonLessEq => push_op(out, '<', Some('=')),
                    _ => push_op(out, '!', Some('~')),
                }
                out.push(' ');
                c.value.display_into(out);
                assert(out@ =~= start + expr_display(self@, parent_is_and));
            },
            JsonExpr::And(l, r) => {
                l.display_into(true, out);
                out.push(' ');
                out.push('a');
                out.push('n');
                out.push('d');
                out.push(' ');
                r.display_into(true, out);
                assert(out@ =~= start + expr_display(self@, parent_is_and));
            },
            JsonExpr::Or(l, r) => {
                if parent_is_and {
                    out.push('(');
                }
                let ghost inner_start = out@;
                l.display_into(false, out);
                out.push(' ');
                out.push('o');
                out.push('r');
                out.push(' ');
                r.display_into(false, out);
                let ghost inner = expr_display(l@, false) + seq![' ', 'o', 'r', ' ']
                    + expr_display(r@, false);
                assert(out@ =~= inner_start + inner);
                if parent_is_and {
                    out.push(')');
                }
                assert(out@ =~= start + expr_display(self@, parent_is_and));
            },
        }
    }

    /// The expression as query text; `parent_is_and` parenthesizes an `or`.
    pub fn display_string_inner(&self, parent_is_and: bool) -> (r: String)
        requires
            expr_wf(self@),
        ensures
            r@ == expr_display(self@, parent_is_and),
    {
        let mut out: Vec<char> = Vec::new();
        self.display_into(parent_is_and, &mut out);
        assert(out@ =~= expr_display(self@, parent_is_and));
        string_of(out.as_slice())
    }
}

impl LineFormatTemplate {
    fn text_into(&self, out: &mut Vec<char>)
        ensures
            final(out)@ == old(out)@ + template_text(self@),
    {
        let ghost start = out@;
        let n = self.parts.len();
        let mut i: usize = 0;
        while i < n
            invariant
                n == self.parts@.len(),
                i <= n,
                out@ == start + template_text(self@.subrange(0, i as int)),
            decreases n - i,
        {
            let ghost before = out@;
            match &self.parts[i] {
                TemplatePart::Literal(s) => push_str(out, s.as_str()),
                TemplatePart::Key(k) => {
                    out.push('{');
                    out.push('{');
                    out.push(' ');
                    out.push('.');
                    push_str(out, k.as_str());
                    out.push(' ');
                    out.push('}');
                    out.push('}');
                },
            }
            assert(self@.subrange(0, i + 1).drop_last() =~= self@.subrange(0, i as int));
            assert(out@ =~= before + part_text(self@[i as int]));
            i = i + 1;
        }
        assert(self@.subrange(0, n as int) =~= self@);
    }
}

impl FilterSegment {
    fn display_into(&self, out: &mut Vec<char>)
        requires
            segment_wf(self@),
        ensures
            final(out)@ == old(out)@ + segment_display(self@),
    {
        let ghost start = out@;
        match self {
            FilterSegment::Plain(c) => {
                match c.operator {
                    FilterOp::Contains => push_op(out, '|', Some('=')),
                    FilterOp::RegexMatch => push_op(out, '|', Some('~')),
                    FilterOp::NotContains => push_op(out, '!', Some('=')),
                    _ => push_op(out, '!', Some('~')),
                }
                out.push(' ');
                c.value.display_into(out);
            },
            FilterSegment::Json(e) => {
                out.push('|');
                out.push(' ');
                e.display_into(false, out);
            },
            FilterSegment::LineFormat(t) => {
                out.push('|');
                out.push(' ');
                out.push('l');
                out.push('i');
                out.push('n');
                out.push('e');
                out.push('_');
                out.push('f');
                out.push('o');
                out.push('r');
                out.push('m');
                out.push('a');
                out.push('t');
                out.push(' ');
                out.push('"');
                t.text_into(out);
                out.push('"');
            },
        }
        assert(out@ =~= start + segment_display(self@));
    }
}

impl FilterQuery {
    /// The query as query text: the segments, separated by spaces.
    pub fn display_string(&self) -> (r: String)
        requires
            query_wf(self@),
        ensures
            r@ == query_display(self@),
    {
        let mut out: Vec<char> = Vec::new();
        let n = self.segments.len();
        let mut i: usize = 0;
        while i < n
            invariant
                n == self.segments@.len(),
                i <= n,
                query_wf(self@),
                out@ == query_display(self@.subrange(0, i as int)),
            decreases n - i,
        {
            let ghost before = out@;
            if i > 0 {
                out.push(' ');
            }
            assert(segment_wf(self@[i as int]));
            self.segments[i].display_into(&mut out);
            assert(self@.subrange(0, i + 1).drop_last() =~= self@.subrange(0, i as int));
            assert(self@.subrange(0, i + 1).last() == self@[i as int]);
            if i == 0 {
                assert(out@ =~= query_display(self@.subrange(0, i + 1)));
            } else {
                assert(out@ =~= query_display(self@.subrange(0, i + 1)));
            }
            i = i + 1;
        }
        assert(self@.subrange(0, n as int) =~= self@);
        string_of(out.as_slice())
    }
}

// ---------------------------------------------------------------------------
// Applying a template
// ---------------------------------------------------------------------------

/// A template part filled in from `v`: a missing key gives empty text.
pub open spec fn part_filled(p: PartV, v: JsonValue) -> Seq<char> {
    match p {
        PartV::Literal(s) => s,
        PartV::Key(k) => match lookup_key(v, k) {
            Some(x) => json_text(x),
            None => Seq::empty(),
        },
    }
}

pub open spec fn template_filled(parts: Seq<PartV>, v: JsonValue) -> Seq<char>
    decreases parts.len(),
{
    if parts.len() == 0 {
        Seq::empty()
    } else {
        template_filled(parts.drop_last(), v) + part_filled(parts.last(), v)
    }
}

/// The formatted line: `None` when `text` is not JSON.
pub open spec fn template_format(parts: Seq<PartV>, text: Seq<char>) -> Option<Seq<char>> {
    match spec_parse_json(text) {
        Some(v) => Some(template_filled(parts, v)),
        None => None,
    }
}

impl LineFormatTemplate {
    pub fn format(&self, text: &str) -> (r: Option<String>)
        ensures
            match template_format(self@, text@) {
                Some(s) => r matches Some(x) && x@ == s,
                None => r is None,
            },
    {
        let value = match parse_json(text) {
            Some(v) => v,
            None => {
                return None;
            },
        };
        let mut out: Vec<char> = Vec::new();
        let n = self.parts.len();
        let mut i: usize = 0;
        while i < n
            invariant
                n == self.parts@.len(),
                i <= n,
                out@ == template_filled(self@.subrange(0, i as int), value),
            decreases n - i,
        {
            let ghost before = out@;
            match &self.parts[i] {
                TemplatePart::Literal(s) => push_str(&mut out, s.as_str()),
                TemplatePart::Key(key) => {
                    if let Some(v) = lookup_json_key(&value, key.as_str()) {
                        let t = json_value_to_string(v);
                        push_str(&mut out, t.as_str());
                    }
                },
            }
            assert(self@.subrange(0, i + 1).drop_last() =~= self@.subrange(0, i as int));
            assert(out@ =~= before + part_filled(self@[i as int], value));
            i = i + 1;
        }
        assert(self@.subrange(0, n as int) =~= self@);
        Some(string_of(out.as_slice()))
    }
}

} // verus!
