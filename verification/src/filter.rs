//! Glob-based path filtering: a path is ignored when any ignore pattern
//! matches it, and included when the include list is empty or some include
//! pattern matches it. A pattern that does not compile matches nothing.

use vstd::prelude::*;

verus! {

/// The verdict of the glob matcher on one pattern and one path: whether the
/// pattern, compiled with shell-style wildcard semantics, matches the path.
/// A malformed pattern matches no path at all. The verdict is a function of
/// the two strings alone.
pub uninterp spec fn pattern_match(pattern: Seq<char>, path: Seq<char>) -> bool;

/// Relies on `glob::Pattern::new` and `glob::Pattern::matches`: both compute
/// from their string arguments alone, so one verdict per (pattern, path) pair
/// exists; a pattern that fails to compile is treated as matching nothing.
#[verifier::external_body]
fn glob_match(pattern: &String, path: &String) -> (r: bool)
    ensures
        r == pattern_match(pattern@, path@),
{
    match glob::Pattern::new(pattern.as_str()) {
        Ok(p) => p.matches(path.as_str()),
        Err(_) => false,
    }
}

/// Whether any pattern in the list matches the path.
pub open spec fn spec_matches_any(path: Seq<char>, patterns: Seq<Seq<char>>) -> bool {
    exists|i: int| 0 <= i < patterns.len() && pattern_match(patterns[i], path)
}

/// A path is ignored exactly when some ignore pattern matches it.
pub open spec fn spec_should_ignore(path: Seq<char>, ignore: Seq<Seq<char>>) -> bool {
    spec_matches_any(path, ignore)
}

/// A path is included when the include list is empty, or when some include
/// pattern matches it.
pub open spec fn spec_should_include(path: Seq<char>, includes: Seq<Seq<char>>) -> bool {
    includes.len() == 0 || spec_matches_any(path, includes)
}

pub fn matches_any(path: &String, patterns: &Vec<String>) -> (r: bool)
    ensures
        r == spec_matches_any(path@, patterns.deep_view()),
{
    let ghost pats = patterns.deep_view();
    let mut i: usize = 0;
    while i < patterns.len()
        invariant
            0 <= i <= patterns.len(),
            pats == patterns.deep_view(),
            pats.len() == patterns@.len(),
            forall|k: int| 0 <= k < i ==> !pattern_match(pats[k], path@),
        decreases patterns.len() - i,
    {
        if glob_match(&patterns[i], path) {
            proof {
                assert(pats[i as int] == patterns@[i as int]@);
            }
            return true;
        }
        i += 1;
    }
    false
}

pub fn should_ignore(path: &String, ignore_globs: &Vec<String>) -> (r: bool)
    ensures
        r == spec_should_ignore(path@, ignore_globs.deep_view()),
{
    matches_any(path, ignore_globs)
}

pub fn should_include(path: &String, include_globs: &Vec<String>) -> (r: bool)
    ensures
        r == spec_should_include(path@, include_globs.deep_view()),
{
    if include_globs.len() == 0 {
        true
    } else {
        matches_any(path, include_globs)
    }
}

/// Law: a path is ignored if and only if at least one pattern of the ignore
/// list matches it under the glob grammar.
pub proof fn lemma_ignore_iff_some_match(path: Seq<char>, ignore: Seq<Seq<char>>)
    ensures
        spec_should_ignore(path, ignore) <==> exists|i: int|
            0 <= i < ignore.len() && pattern_match(ignore[i], path),
{
}

/// Law: an empty include list admits every path.
pub proof fn lemma_include_empty(path: Seq<char>)
    ensures
        spec_should_include(path, Seq::<Seq<char>>::empty()),
{
}

} // verus!
