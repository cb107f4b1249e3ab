//! String matching predicates used by window classification.
//!
//! The spec-level predicates define prefix, suffix and substring matching
//! over character sequences; the executable functions call the standard
//! library's `str` matching and are trusted to agree with them.

use vstd::prelude::*;

verus! {

/// `p` is a prefix of `s`.
pub open spec fn is_prefix_of(p: Seq<char>, s: Seq<char>) -> bool {
    p.len() <= s.len() && s.subrange(0, p.len() as int) == p
}

/// `p` is a suffix of `s`.
pub open spec fn is_suffix_of(p: Seq<char>, s: Seq<char>) -> bool {
    p.len() <= s.len() && s.subrange(s.len() - p.len(), s.len() as int) == p
}

/// `p` occurs contiguously somewhere in `s`.
pub open spec fn is_substring_of(p: Seq<char>, s: Seq<char>) -> bool {
    exists|i: int| 0 <= i <= s.len() - p.len() && #[trigger] s.subrange(i, i + p.len()) == p
}

/// Relies on str's `PartialEq`: two slices are equal exactly when their
/// character sequences are.
#[verifier::external_body]
pub fn str_eq(s: &str, other: &str) -> (r: bool)
    ensures
        r == (s@ == other@),
{
    s == other
}

/// Relies on str::starts_with: true exactly when `pat` matches a prefix
/// of `s`.
#[verifier::external_body]
pub fn str_starts_with(s: &str, pat: &str) -> (r: bool)
    ensures
        r == is_prefix_of(pat@, s@),
{
    s.starts_with(pat)
}

/// Relies on str::ends_with: true exactly when `pat` matches a suffix
/// of `s`.
#[verifier::external_body]
pub fn str_ends_with(s: &str, pat: &str) -> (r: bool)
    ensures
        r == is_suffix_of(pat@, s@),
{
    s.ends_with(pat)
}

/// Relies on str::contains: true exactly when `pat` matches a sub-slice
/// of `s`.
#[verifier::external_body]
pub fn str_contains(s: &str, pat: &str) -> (r: bool)
    ensures
        r == is_substring_of(pat@, s@),
{
    s.contains(pat)
}

} // verus!
