//! Regular expressions for terminology patterns, matched by `regex-lite`.
use vstd::prelude::*;
use crate::text::is_boundary;

verus! {

#[verifier::external_type_specification]
#[verifier::external_body]
pub struct ExRegex(regex_lite::Regex);

/// Whether `regex_lite::Regex::new(pattern)` succeeds.
pub uninterp spec fn regex_compiles(pattern: Seq<char>) -> bool;

/// The capture groups of each successive non-overlapping match of `pattern` in `haystack`
/// (`Regex::captures_iter`), each group as its byte range, `None` for a group that did not take
/// part in the match.
pub uninterp spec fn regex_captures(pattern: Seq<char>, haystack: Seq<char>) -> Seq<Seq<Option<(usize, usize)>>>;

/// A compiled regular expression together with the pattern it was compiled from.
pub struct Pattern {
    source: String,
    re: regex_lite::Regex,
}

impl Pattern {
    /// The pattern this regular expression was compiled from.
    pub closed spec fn source(&self) -> Seq<char> {
        self.source@
    }
}

/// `Regex::new(pattern).ok()`.
#[verifier::external_body]
pub(crate) fn compile(pattern: &str) -> (r: Option<Pattern>)
    ensures
        r.is_some() == regex_compiles(pattern@),
        r matches Some(p) ==> p.source() == pattern@,
{
    match regex_lite::Regex::new(pattern) {
        Ok(re) => Some(Pattern { source: pattern.to_string(), re }),
        Err(_) => None,
    }
}

/// `pattern.captures_iter(haystack)`, each match as its groups' byte ranges. Every offset lies
/// on a UTF-8 character boundary of `haystack`, every range is ordered, and group 0 (the whole
/// match) is always present.
#[verifier::external_body]
pub(crate) fn captures(pattern: &Pattern, haystack: &str) -> (r: Vec<Vec<Option<(usize, usize)>>>)
    ensures
        r@.map_values(|m: Vec<Option<(usize, usize)>>| m@) == regex_captures(pattern.source(), haystack@),
        forall|i: int| 0 <= i < r@.len() ==> (#[trigger] r@[i])@.len() > 0 && r@[i]@[0] is Some,
        forall|i: int, j: int|
            0 <= i < r@.len() && 0 <= j < r@[i]@.len() ==> match #[trigger] r@[i]@[j] {
                Some((s, e)) => s <= e && is_boundary(haystack@, s as int) && is_boundary(haystack@, e as int),
                None => true,
            },
{
    pattern
        .re
        .captures_iter(haystack)
        .map(|caps| (0..caps.len()).map(|g| caps.get(g).map(|m| (m.start(), m.end()))).collect())
        .collect()
}

} // verus!
