//! Regular expressions, as far as the shell uses them: to find the
//! references to variables in a word, and to test the arguments of `export`.

use vstd::prelude::*;
use regex::Regex;
use crate::environment::Environment;

verus! {

/// `regex::Regex`, a compiled expression, carried through as it is.
#[verifier::external_type_specification]
#[verifier::external_body]
pub struct ExRegex(regex::Regex);

/// `regex::Error`, the reason why a pattern did not compile.
#[verifier::external_type_specification]
#[verifier::external_body]
pub struct ExRegexError(regex::Error);

/// The pattern that a compiled expression was made from, as
/// `Regex::as_str` gives it back.
pub uninterp spec fn pattern_of(re: Regex) -> Seq<char>;

/// Whether `pattern` is one that `Regex::new` accepts.
pub uninterp spec fn compiles(pattern: Seq<char>) -> bool;

/// Whether the expression made from `pattern` matches somewhere in `text`.
pub uninterp spec fn found_in(pattern: Seq<char>, text: Seq<char>) -> bool;

/// The text that comes of `text` when each match of the expression made
/// from `pattern`, going from left to right without overlap, is replaced by
/// the value that `env` gives to the variable named behind the first
/// character of the match.
pub uninterp spec fn substituted(pattern: Seq<char>, text: Seq<char>, env: Map<Seq<char>, Seq<char>>) -> Seq<
    char,
>;

/// `Regex::new` compiles a pattern. Whether it succeeds depends on the
/// pattern alone, and the expression it gives is the one for that pattern.
pub assume_specification[ Regex::new ](re: &str) -> (r: Result<Regex, regex::Error>)
    ensures
        r is Ok == compiles(re@),
        r matches Ok(x) ==> pattern_of(x) == re@,
;

/// `Regex::is_match` tells whether the expression matches anywhere in the
/// text. Its answer depends on the pattern and the text alone.
pub assume_specification[ Regex::is_match ](re: &Regex, haystack: &str) -> (b: bool)
    ensures
        b == found_in(pattern_of(*re), haystack@),
;

/// Replaces every reference to a variable in `text` by the variable's
/// value.
///
/// Trusted: `Regex::replace_all` walks over the matches of `re` in `text`
/// from left to right and puts in place of each what the closure returns
/// for it. The closure hands the matched text to
/// `Environment::reference_value`, so the result depends on the pattern,
/// the text and the variables alone.
#[verifier::external_body]
pub(crate) fn replace_references(re: &Regex, text: &str, env: &Environment) -> (r: String)
    requires
        env.wf(),
    ensures
        r@ == substituted(pattern_of(*re), text@, env@),
{
    re.replace_all(text, |found: &regex::Captures| env.reference_value(&found[0])).into_owned()
}

/// Why a line or a command could not be worked on.
#[derive(Clone, Copy, Debug, PartialEq, Eq, Structural)]
pub enum PatternError {
    /// The expression that the shell relies on did not compile.
    Rejected,
}

} // verus!
