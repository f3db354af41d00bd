//! Option identifiers. An identifier is the 128-bit value of a UUID.

use uuid::Uuid;
use vstd::prelude::*;

verus! {

/// The identity of an option: the value of its UUID.
pub type OptionId = u128;

/// What `Uuid::parse_str` makes of a text: the value of the UUID that it
/// denotes, or `None` where the text is no UUID.
pub uninterp spec fn parsed_id(text: Seq<char>) -> Option<OptionId>;

/// `Uuid::parse_str`, with the parsed UUID handed out by `Uuid::as_u128`.
/// The outcome depends on the text alone; the contract gives it its name.
#[verifier::external_body]
pub(crate) fn parse_uuid(text: &str) -> (r: Option<OptionId>)
    ensures
        r == parsed_id(text@),
{
    Uuid::parse_str(text).ok().map(|id| id.as_u128())
}

/// `Uuid::new_v4`: a random identifier, of which nothing is promised.
#[verifier::external_body]
pub(crate) fn random_id() -> OptionId {
    Uuid::new_v4().as_u128()
}

/// Reads one identifier. `None` where the text does not denote one.
pub fn parse_id(text: &str) -> (r: Option<OptionId>)
    ensures
        r == parsed_id(text@),
{
    parse_uuid(text)
}

} // verus!
