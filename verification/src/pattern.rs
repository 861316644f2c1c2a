//! Regular expressions, as the `regex` crate compiles and matches them.
//!
//! A compiled expression is opaque to the verifier. The rest of the crate
//! speaks of patterns as text: whether a pattern is valid, and whether it
//! matches, is what `Regex::new` and `Regex::is_match` make of it.

use regex::Error;
use regex::Regex;
use vstd::prelude::*;

verus! {

#[verifier::external_type_specification]
#[verifier::external_body]
pub struct ExRegex(Regex);

#[verifier::external_type_specification]
#[verifier::external_body]
pub struct ExRegexError(Error);

/// The pattern that a compiled expression was made from, which
/// `Regex::as_str` returns.
pub uninterp spec fn pattern_of(regex: Regex) -> Seq<char>;

/// What `Regex::new` makes of a pattern: the compiled expression, or `None`
/// where the pattern is refused.
pub uninterp spec fn compiled(pattern: Seq<char>) -> Option<Regex>;

/// Whether a compiled expression matches anywhere in `text`, as
/// `Regex::is_match` decides it.
pub uninterp spec fn regex_matches(regex: Regex, text: Seq<char>) -> bool;

/// Whether a pattern compiles.
pub open spec fn pattern_valid(pattern: Seq<char>) -> bool {
    compiled(pattern) is Some
}

/// Whether a pattern compiles to an expression that matches anywhere in
/// `text`.
pub open spec fn pattern_matches(pattern: Seq<char>, text: Seq<char>) -> bool {
    compiled(pattern) matches Some(regex) && regex_matches(regex, text)
}

/// `Regex::new`. What a pattern compiles to depends on the pattern alone,
/// and the compiled expression remembers its pattern.
#[verifier::external_body]
pub(crate) fn compile(pattern: &str) -> (r: Result<Regex, Error>)
    ensures
        match r {
            Ok(regex) => compiled(pattern@) == Some(regex) && pattern_of(regex) == pattern@,
            Err(_) => compiled(pattern@) is None,
        },
{
    Regex::new(pattern)
}

/// `Regex::is_match`: whether the expression matches anywhere in `text`. The
/// answer depends on the expression and the text alone.
#[verifier::external_body]
pub(crate) fn is_match(regex: &Regex, text: &str) -> (r: bool)
    ensures
        r == regex_matches(*regex, text@),
{
    regex.is_match(text)
}

/// `Regex::as_str`: the pattern that the expression was compiled from.
#[verifier::external_body]
pub(crate) fn pattern_str(regex: &Regex) -> (r: &str)
    ensures
        r@ == pattern_of(*regex),
{
    regex.as_str()
}

} // verus!
