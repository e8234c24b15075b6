//! Resolving stream addresses with the `url` implementation that `reqwest` exports.
//!
//! Addresses are carried as their serialized text: a base address is the text
//! of an already parsed URL, and a resolved address is the text of the result.

use vstd::prelude::*;

verus! {

/// What `reqwest::Url::parse(input)` gives, as text: the serialization of the
/// parsed URL, or the message of the parse error.
pub uninterp spec fn parsed_url(input: Seq<char>) -> Result<Seq<char>, Seq<char>>;

/// What parsing `base` and then joining `input` onto it with `Url::join`
/// gives, as text: the serialization of the resolved URL, or the message of
/// the first error.
pub uninterp spec fn joined_url(base: Seq<char>, input: Seq<char>) -> Result<Seq<char>, Seq<char>>;

/// The text of an address outcome.
pub open spec fn outcome_view(r: Result<String, String>) -> Result<Seq<char>, Seq<char>> {
    match r {
        Ok(u) => Ok(u@),
        Err(e) => Err(e@),
    }
}

/// `reqwest::Url::parse`: the result depends on `input` alone and is named
/// `parsed_url`; what the WHATWG URL parser computes is not written out here.
#[verifier::external_body]
pub(crate) fn parse_url(input: &str) -> (r: Result<String, String>)
    ensures
        outcome_view(r) == parsed_url(input@),
{
    match reqwest::Url::parse(input) {
        Ok(u) => Ok(u.into()),
        Err(e) => Err(e.to_string()),
    }
}

/// `reqwest::Url::parse` of `base` followed by `Url::join` of `input`: the
/// result depends on the two texts alone and is named `joined_url`; how a
/// relative reference is resolved is not written out here.
#[verifier::external_body]
pub(crate) fn join_url(base: &str, input: &str) -> (r: Result<String, String>)
    ensures
        outcome_view(r) == joined_url(base@, input@),
{
    match reqwest::Url::parse(base) {
        Ok(b) => match b.join(input) {
            Ok(u) => Ok(u.into()),
            Err(e) => Err(e.to_string()),
        },
        Err(e) => Err(e.to_string()),
    }
}

} // verus!
