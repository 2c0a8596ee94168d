//! Contracts for the outside functions the search engine relies on:
//! Unicode case folding from the standard library, shell-style pattern
//! matching from the `glob` crate, and regular-expression matching from
//! the `regex` crate.
//!
//! Each compiled pattern value is opaque; the spec functions below name
//! the text it was compiled from and the matching relation it computes,
//! and every contract in the crate speaks of those names.

use vstd::prelude::*;

verus! {

/// The character sequence that `str::to_lowercase` produces for `s`.
/// The mapping depends on the characters of `s` alone.
pub uninterp spec fn lower_chars(s: Seq<char>) -> Seq<char>;

/// Relies on `str::to_lowercase`: the result is the Unicode lowercase
/// mapping of the input, a function of the input characters alone, and
/// an empty string stays empty.
pub assume_specification[ str::to_lowercase ](s: &str) -> (r: String)
    ensures
        r@ == lower_chars(s@),
        s@.len() == 0 ==> r@.len() == 0,
;

#[verifier::external_type_specification]
#[verifier::external_body]
pub struct ExGlobPattern(glob::Pattern);

#[verifier::external_type_specification]
#[verifier::external_body]
pub struct ExGlobPatternError(glob::PatternError);

#[verifier::external_type_specification]
#[verifier::external_body]
pub struct ExRegex(regex::Regex);

#[verifier::external_type_specification]
#[verifier::external_body]
pub struct ExRegexError(regex::Error);

/// The pattern text a `glob::Pattern` was compiled from.
pub uninterp spec fn glob_source(p: glob::Pattern) -> Seq<char>;

/// Whether `glob::Pattern::new` accepts the pattern text `pat`.
/// Compilation is a function of the pattern text alone.
pub uninterp spec fn glob_compiles(pat: Seq<char>) -> bool;

/// Whether the glob pattern compiled from `pat` matches the name `name`.
/// Matching is a function of the two texts alone.
pub uninterp spec fn glob_matched(pat: Seq<char>, name: Seq<char>) -> bool;

/// Relies on `glob::Pattern::new`: it tokenizes the pattern text alone,
/// deterministically, and the compiled value holds that text.
pub assume_specification[ glob::Pattern::new ](pattern: &str) -> (r: Result<
    glob::Pattern,
    glob::PatternError,
>)
    ensures
        r is Ok <==> glob_compiles(pattern@),
        r matches Ok(p) ==> glob_source(p) == pattern@,
;

/// Relies on `glob::Pattern::matches`: the outcome depends only on the
/// compiled pattern's text and the name being matched.
pub assume_specification[ glob::Pattern::matches ](p: &glob::Pattern, name: &str) -> (r: bool)
    ensures
        r == glob_matched(glob_source(*p), name@),
;

/// The pattern text a `regex::Regex` was compiled from.
pub uninterp spec fn regex_source(re: regex::Regex) -> Seq<char>;

/// Whether `regex::Regex::new` accepts the pattern text `pat`.
/// Compilation is a function of the pattern text alone.
pub uninterp spec fn regex_compiles(pat: Seq<char>) -> bool;

/// Whether the regular expression compiled from `pat` matches somewhere
/// in the text `text`. Matching is a function of the two texts alone.
pub uninterp spec fn regex_matched(pat: Seq<char>, text: Seq<char>) -> bool;

/// Relies on `regex::Regex::new`: it compiles the pattern text alone,
/// deterministically, and the compiled value holds that text.
pub assume_specification[ regex::Regex::new ](re: &str) -> (r: Result<regex::Regex, regex::Error>)
    ensures
        r is Ok <==> regex_compiles(re@),
        r matches Ok(rx) ==> regex_source(rx) == re@,
;

/// Relies on `regex::Regex::is_match`: the outcome depends only on the
/// compiled pattern's text and the haystack.
pub assume_specification[ regex::Regex::is_match ](re: &regex::Regex, haystack: &str) -> (r: bool)
    ensures
        r == regex_matched(regex_source(*re), haystack@),
;

/// `s` with every `*` replaced by `.*`, the translation the ignore-pattern
/// matcher applies before compiling a pattern as a regular expression.
pub open spec fn replace_star(s: Seq<char>) -> Seq<char>
    decreases s.len(),
{
    if s.len() == 0 {
        Seq::empty()
    } else if s.first() == '*' {
        seq!['.', '*'] + replace_star(s.drop_first())
    } else {
        seq![s.first()] + replace_star(s.drop_first())
    }
}

/// Relies on `str::replace`: every occurrence of the one-character
/// pattern `*` is replaced by `.*`, left to right.
#[verifier::external_body]
pub fn replace_star_with_dot_star(s: &str) -> (r: String)
    ensures
        r@ == replace_star(s@),
{
    s.replace("*", ".*")
}

} // verus!
