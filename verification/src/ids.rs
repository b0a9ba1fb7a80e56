//! Opaque 128-bit identifiers: random generation and parsing of their
//! textual form.

use vstd::prelude::*;

verus! {

/// Relies on `uuid::Uuid::new_v4`: a randomly drawn identifier. Nothing is
/// assumed of the value; callers check freshness against the store.
#[verifier::external_body]
pub(crate) fn new_random_id() -> u128 {
    uuid::Uuid::new_v4().as_u128()
}

/// What parsing a textual identifier yields: its 128-bit value, or nothing
/// when the text is not a well-formed identifier. Named, not spelled out:
/// it stands for the outside crate's grammar, a pure function of the text.
pub uninterp spec fn uuid_of(s: Seq<char>) -> Option<u128>;

/// Relies on `uuid::Uuid::parse_str` and `Uuid::as_u128`, deterministic in
/// the string; `uuid_of` names the outcome.
#[verifier::external_body]
pub(crate) fn parse_id(s: &str) -> (r: Option<u128>)
    ensures
        r == uuid_of(s@),
{
    match uuid::Uuid::parse_str(s) {
        Ok(u) => Some(u.as_u128()),
        Err(_) => None,
    }
}

} // verus!
