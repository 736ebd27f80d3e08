//! Identifiers of members and rooms: 128-bit UUID values, drawn at random and
//! written in the usual hyphenated text form.
use vstd::prelude::*;

verus! {

/// The hyphenated text that the `uuid` crate writes for a 128-bit value.
pub uninterp spec fn uuid_text(id: u128) -> Seq<char>;

/// What `uuid`'s parser reads from a text: the value, or nothing where the text
/// is no UUID.
pub uninterp spec fn uuid_parse(text: Seq<char>) -> Option<u128>;

/// Relies on uuid::Uuid::new_v4: a random version-4 UUID. Nothing is promised of
/// the value.
#[verifier::external_body]
pub(crate) fn fresh_uuid() -> (r: u128) {
    uuid::Uuid::new_v4().as_u128()
}

/// Relies on uuid's `Display` for `Uuid` (hyphenated, lower case, 36 characters),
/// and on `Uuid::parse_str` reading that form back.
#[verifier::external_body]
pub(crate) fn id_text(id: u128) -> (r: String)
    ensures
        r@ == uuid_text(id),
        r@.len() == 36,
        uuid_parse(r@) == Some(id),
{
    uuid::Uuid::from_u128(id).to_string()
}

/// Relies on uuid::Uuid::parse_str: the value that a text names, if it is a UUID.
#[verifier::external_body]
pub(crate) fn parse_id(text: &str) -> (r: Option<u128>)
    ensures
        r == uuid_parse(text@),
{
    uuid::Uuid::parse_str(text).ok().map(|u| u.as_u128())
}

} // verus!
