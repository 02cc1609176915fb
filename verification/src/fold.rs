//! Folding text to lower case, so that letters can be compared without
//! regard to case.

use vstd::prelude::*;

verus! {

/// The lower-case form of `s`: what `str::to_lowercase` of the standard
/// library returns for a string that holds the characters `s`.
pub uninterp spec fn lowercase_of(s: Seq<char>) -> Seq<char>;

/// Whether `a` and `b` differ at most in the case of their letters.
pub open spec fn same_ignoring_case(a: Seq<char>, b: Seq<char>) -> bool {
    lowercase_of(a) == lowercase_of(b)
}

/// The lower-case form of `s`, as a new string.
///
/// Calls `str::to_lowercase` and is not verified. The contract names the
/// result `lowercase_of(s@)`, which claims that the result depends on the
/// characters of `s` alone, and states that the empty string is folded to the
/// empty string.
#[verifier::external_body]
pub(crate) fn to_lowercase(s: &str) -> (folded: String)
    ensures
        folded@ == lowercase_of(s@),
        s@.len() == 0 ==> folded@.len() == 0,
{
    s.to_lowercase()
}

} // verus!
