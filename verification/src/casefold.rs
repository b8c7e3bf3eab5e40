//! Case folding and substring search over names, used by the
//! case-insensitive name sort and by the name-filter resolution.
use vstd::prelude::*;

verus! {

/// The character sequence that Unicode lowercasing produces for `s`.
/// It depends on the characters of `s` alone.
pub uninterp spec fn lower_of(s: Seq<char>) -> Seq<char>;

/// Relies on str::to_lowercase: returns the Unicode lowercase of the
/// string; the result depends on the characters alone, and an empty
/// string stays empty.
#[verifier::external_body]
pub(crate) fn lowercase(s: &str) -> (r: String)
    ensures
        r@ == lower_of(s@),
        s@.len() == 0 ==> r@.len() == 0,
{
    s.to_lowercase()
}

/// True when `needle` occurs as a contiguous subsequence of `haystack`.
pub open spec fn contains_seq(haystack: Seq<char>, needle: Seq<char>) -> bool {
    exists|i: int|
        0 <= i && i + needle.len() <= haystack.len() && #[trigger] haystack.subrange(
            i,
            i + needle.len(),
        ) == needle
}

/// Relies on str::contains with a &str pattern: true exactly when the
/// pattern occurs as a substring of the string.
#[verifier::external_body]
pub(crate) fn str_contains(haystack: &str, needle: &str) -> (r: bool)
    ensures
        r == contains_seq(haystack@, needle@),
{
    haystack.contains(needle)
}

} // verus!
