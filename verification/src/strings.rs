use vstd::prelude::*;

verus! {

/// `needle` occurs as a contiguous run inside `haystack`.
pub open spec fn occurs_in(needle: Seq<char>, haystack: Seq<char>) -> bool {
    exists|i: int|
        0 <= i && i + needle.len() <= haystack.len() && #[trigger] haystack.subrange(i, i + needle.len())
            == needle
}

/// Calls std's `<str as PartialEq>::eq`, which compares the two strings
/// character by character; the contract claims that the answer is whether
/// the two character sequences are equal.
#[verifier::external_body]
pub(crate) fn str_eq(a: &str, b: &str) -> (r: bool)
    ensures
        r == (a@ == b@),
{
    a == b
}

/// Calls std's `str::contains` with a string pattern; the contract claims
/// that the answer is whether `needle` occurs as a substring of `haystack`,
/// as std documents it.
#[verifier::external_body]
pub(crate) fn str_contains(haystack: &str, needle: &str) -> (r: bool)
    ensures
        r == occurs_in(needle@, haystack@),
{
    haystack.contains(needle)
}

} // verus!
