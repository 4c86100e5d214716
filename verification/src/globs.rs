//! Trusted boundary to the `glob` crate: glob-pattern validity and
//! glob matching, named as functions of the pattern and path strings.

use vstd::prelude::*;

verus! {

/// Whether the `glob` crate accepts `pattern` as a well-formed glob
/// pattern: the success of `glob::Pattern::new`, which depends on the
/// pattern string alone.
pub uninterp spec fn glob_valid(pattern: Seq<char>) -> bool;

/// What `glob::Pattern::matches_with` returns for `path` against the
/// compiled `pattern`, under case-sensitive matching with
/// `require_literal_separator` and `require_literal_leading_dot` both off;
/// `false` where the pattern is not well-formed. The result depends on the
/// two strings alone.
pub uninterp spec fn glob_match(pattern: Seq<char>, path: Seq<char>) -> bool;

/// Relies on `glob::Pattern::new`: whether it accepts the pattern string.
#[verifier::external_body]
pub fn glob_pattern_valid(pattern: &str) -> (r: bool)
    ensures
        r == glob_valid(pattern@),
{
    glob::Pattern::new(pattern).is_ok()
}

/// Relies on `glob::Pattern::new` and `glob::Pattern::matches_with`: the
/// match result for a well-formed pattern, under the options stated at
/// `glob_match`; an ill-formed pattern matches nothing.
#[verifier::external_body]
pub fn glob_match_str(pattern: &str, path: &str) -> (r: bool)
    ensures
        r == glob_match(pattern@, path@),
{
    let options = glob::MatchOptions::new();
    match glob::Pattern::new(pattern) {
        Ok(compiled) => compiled.matches_with(path, options),
        Err(_) => false,
    }
}

} // verus!
