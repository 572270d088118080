//! What the library takes from other crates and from the parts of std that have no
//! specification of their own. Nothing here is proved: each contract says what the function
//! behind it is documented to do.

use vstd::prelude::*;

verus! {

/// The lower-case form of a text, as `str::to_lowercase` of std gives it.
pub uninterp spec fn lowercase_text(s: Seq<char>) -> Seq<char>;

/// `str::to_lowercase` of std. The result depends on the text alone, by Unicode's tables.
#[verifier::external_body]
pub(crate) fn lowercase(s: &str) -> (lower: String)
    ensures
        lower@ == lowercase_text(s@),
{
    s.to_lowercase()
}

/// The upper-case form of a text, as `str::to_uppercase` of std gives it.
pub uninterp spec fn uppercase_text(s: Seq<char>) -> Seq<char>;

/// `str::to_uppercase` of std. The result depends on the text alone, by Unicode's tables.
#[verifier::external_body]
pub(crate) fn uppercase(s: &str) -> (upper: String)
    ensures
        upper@ == uppercase_text(s@),
{
    s.to_uppercase()
}

} // verus!
