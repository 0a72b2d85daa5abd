//! Letter case of text, as the standard library defines it.

use vstd::prelude::*;

verus! {

/// The lowercase form of a string as `str::to_lowercase` defines it.
pub uninterp spec fn lowercase_of(s: Seq<char>) -> Seq<char>;

/// Returns the lowercase form of `s`.
///
/// Trusted: calls `str::to_lowercase`. The result depends on the characters
/// of `s` alone; the contract gives it the name `lowercase_of` and says
/// nothing else about it.
#[verifier::external_body]
pub(crate) fn to_lowercase(s: &str) -> (r: String)
    ensures
        r@ == lowercase_of(s@),
{
    s.to_lowercase()
}

} // verus!
