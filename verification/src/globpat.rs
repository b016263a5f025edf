//! Trusted bindings for glob-pattern matching, used by the historian's
//! allow-list filter.

use vstd::prelude::*;

verus! {

/// True when `pattern` is a glob pattern that compiles.
pub uninterp spec fn glob_accepts(pattern: Seq<char>) -> bool;

/// Whether `path` matches the glob `pattern`; false when the pattern
/// does not compile. A deterministic function of the two texts.
pub uninterp spec fn glob_matches(pattern: Seq<char>, path: Seq<char>) -> bool;

/// Relies on `glob::Pattern::new`: a deterministic syntax check of the
/// pattern text.
#[verifier::external_body]
pub fn glob_pattern_valid(pattern: &str) -> (r: bool)
    ensures
        r == glob_accepts(pattern@),
{
    glob::Pattern::new(pattern).is_ok()
}

/// Relies on `glob::Pattern::new` and `glob::Pattern::matches`:
/// compiling and matching are deterministic functions of the pattern
/// and path texts; a pattern that does not compile matches nothing.
#[verifier::external_body]
pub fn glob_match(pattern: &str, path: &str) -> (r: bool)
    ensures
        r == glob_matches(pattern@, path@),
        !glob_accepts(pattern@) ==> !r,
{
    match glob::Pattern::new(pattern) {
        Ok(p) => p.matches(path),
        Err(_) => false,
    }
}

} // verus!
