//! Changing the case of names: the generated code names its types in upper
//! camel case and its files in snake case.

use convert_case::{Case, Casing};
use vstd::prelude::*;

verus! {

/// The text that `convert_case` gives for `s` in upper camel case: `s` split
/// into words at its boundaries, each word capitalised, joined without a
/// delimiter.
pub uninterp spec fn upper_camel_case(s: Seq<char>) -> Seq<char>;

/// The text that `convert_case` gives for `s` in snake case: `s` split into
/// words at its boundaries, each word in lower case, joined by `_`.
pub uninterp spec fn snake_case(s: Seq<char>) -> Seq<char>;

/// Calls `convert_case`'s `to_case(Case::UpperCamel)`; its result is a
/// function of the text alone, named [`upper_camel_case`].
#[verifier::external_body]
pub(crate) fn to_upper_camel(s: &str) -> (r: String)
    ensures
        r@ == upper_camel_case(s@),
{
    s.to_case(Case::UpperCamel)
}

/// Calls `convert_case`'s `to_case(Case::Snake)`; its result is a function
/// of the text alone, named [`snake_case`].
#[verifier::external_body]
pub(crate) fn to_snake(s: &str) -> (r: String)
    ensures
        r@ == snake_case(s@),
{
    s.to_case(Case::Snake)
}

/// The text that std's `str::to_lowercase` gives for `s`: each character
/// replaced by its lower case form under Unicode's rules.
pub uninterp spec fn lowercase(s: Seq<char>) -> Seq<char>;

/// Calls std's `str::to_lowercase`; its result is a function of the text
/// alone, named [`lowercase`].
#[verifier::external_body]
pub(crate) fn to_lower(s: &str) -> (r: String)
    ensures
        r@ == lowercase(s@),
{
    s.to_lowercase()
}

} // verus!
