//! Regular expressions as the query language uses them: a pattern that is
//! known to compile, matched against text with the `regex` crate.
use vstd::prelude::*;

verus! {

/// Whether the `regex` crate accepts `pattern`.
pub uninterp spec fn regex_compiles(pattern: Seq<char>) -> bool;

/// The text of the error that the `regex` crate reports for `pattern`.
pub uninterp spec fn regex_error_message(pattern: Seq<char>) -> Seq<char>;

/// Whether the regular expression `pattern` matches somewhere in `text`.
pub uninterp spec fn regex_is_match(pattern: Seq<char>, text: Seq<char>) -> bool;

/// `regex::Regex`, the compiled form of a pattern, carried opaquely.
#[verifier::external_type_specification]
#[verifier::external_body]
pub struct ExCompiledRegex(regex::Regex);

/// The pattern a compiled regex was made from, as `Pattern::as_str` gives it.
pub uninterp spec fn compiled_pattern(re: regex::Regex) -> Seq<char>;

/// `regex::Regex::new`: succeeds exactly when the pattern compiles, and the
/// compiled regex keeps the pattern (`Pattern::as_str`); on failure the error's
/// text (its `Display`) is handed back.
#[verifier::external_body]
fn compile_pattern(pattern: &str) -> (r: Result<regex::Regex, String>)
    ensures
        r is Ok <==> regex_compiles(pattern@),
        r matches Ok(re) ==> compiled_pattern(re) == pattern@,
        r matches Err(e) ==> e@ == regex_error_message(pattern@),
{
    match regex::Regex::new(pattern) {
        Ok(re) => Ok(re),
        Err(e) => Err(e.to_string()),
    }
}

/// `regex::Regex::is_match`: whether the compiled regex matches somewhere in
/// `text`.
#[verifier::external_body]
fn compiled_is_match(re: &regex::Regex, text: &str) -> (r: bool)
    ensures
        r == regex_is_match(compiled_pattern(*re), text@),
{
    re.is_match(text)
}

/// `Clone::clone` on a compiled regex (derived): the same pattern.
#[verifier::external_body]
fn compiled_clone(re: &regex::Regex) -> (r: regex::Regex)
    ensures
        compiled_pattern(r) == compiled_pattern(*re),
{
    re.clone()
}

/// A regular expression whose pattern is known to compile, kept compiled.
#[derive(Debug)]
pub struct Pattern {
    pattern: String,
    compiled: regex::Regex,
}

impl View for Pattern {
    type V = Seq<char>;

    closed spec fn view(&self) -> Seq<char> {
        self.pattern@
    }
}

impl Pattern {
    #[verifier::type_invariant]
    spec fn compiles(self) -> bool {
        &&& regex_compiles(self.pattern@)
        &&& compiled_pattern(self.compiled) == self.pattern@
    }

    /// Compile `pattern`; the error is the `regex` crate's message.
    pub fn new(pattern: &str) -> (r: Result<Pattern, String>)
        ensures
            match r {
                Ok(re) => regex_compiles(pattern@) && re@ == pattern@,
                Err(e) => !regex_compiles(pattern@) && e@ == regex_error_message(pattern@),
            },
    {
        match compile_pattern(pattern) {
            Ok(compiled) => Ok(Pattern { pattern: pattern.to_owned(), compiled }),
            Err(e) => Err(e),
        }
    }

    /// Whether the regex matches somewhere in `text`.
    pub fn is_match(&self, text: &str) -> (r: bool)
        ensures
            r == regex_is_match(self@, text@),
    {
        proof {
            use_type_invariant(self);
        }
        compiled_is_match(&self.compiled, text)
    }

    /// The pattern the regex was compiled from.
    pub fn as_str(&self) -> (r: &str)
        ensures
            r@ == self@,
    {
        self.pattern.as_str()
    }
}

impl Clone for Pattern {
    fn clone(&self) -> (r: Self)
        ensures
            r@ == self@,
    {
        proof {
            use_type_invariant(self);
        }
        Pattern { pattern: self.pattern.clone(), compiled: compiled_clone(&self.compiled) }
    }
}

} // verus!
