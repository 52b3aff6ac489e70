//! Regular expressions, as provided by the `regex` crate.

use regex::Regex;
use vstd::prelude::*;

verus! {

/// `regex::Regex`, a compiled expression. Nothing inside it is visible here.
#[verifier::external_type_specification]
#[verifier::external_body]
pub struct ExRegex(regex::Regex);

/// `regex::Error`, the reason a pattern was refused. Nothing inside it is
/// visible here.
#[verifier::external_type_specification]
#[verifier::external_body]
pub struct ExRegexError(regex::Error);

/// The explanation with which `regex::Regex::new` refuses `pattern`, or
/// `None` where it accepts the pattern.
pub uninterp spec fn refusal_of(pattern: Seq<char>) -> Option<Seq<char>>;

/// What a `regex::Error` writes when it is displayed.
pub uninterp spec fn error_text(error: regex::Error) -> Seq<char>;

/// Whether the compiled expression matches anywhere in `text`: what
/// `regex::Regex::is_match` returns.
pub uninterp spec fn regex_matches(re: Regex, text: Seq<char>) -> bool;

/// Whether the expression that `regex::Regex::new` builds from `pattern`
/// matches anywhere in `text`.
pub uninterp spec fn pattern_matches(pattern: Seq<char>, text: Seq<char>) -> bool;

/// Whether `pattern` is a valid expression.
pub open spec fn pattern_compiles(pattern: Seq<char>) -> bool {
    refusal_of(pattern) is None
}

/// Calls `regex::Regex::new`. The outcome depends on the pattern text alone.
/// An expression built this way matches as the pattern does; a refusal
/// carries the explanation that belongs to the pattern.
#[verifier::external_body]
pub(crate) fn compile(pattern: &str) -> (res: Result<Regex, regex::Error>)
    ensures
        res is Ok <==> refusal_of(pattern@) is None,
        res matches Ok(re) ==> forall|text: Seq<char>| #[trigger]
            regex_matches(re, text) == pattern_matches(pattern@, text),
        res matches Err(error) ==> refusal_of(pattern@) == Some(error_text(error)),
{
    Regex::new(pattern)
}

/// Calls `regex::Regex::is_match`: an unanchored search of `text`. The answer
/// depends only on the expression and on `text`.
#[verifier::external_body]
pub(crate) fn is_match(re: &Regex, text: &str) -> (res: bool)
    ensures
        res == regex_matches(*re, text@),
{
    re.is_match(text)
}

/// Writes out a `regex::Error` as its `Display` does.
#[verifier::external_body]
pub(crate) fn explain(error: &regex::Error) -> (res: String)
    ensures
        res@ == error_text(*error),
{
    error.to_string()
}

} // verus!
