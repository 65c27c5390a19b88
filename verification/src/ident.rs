//! Identifiers of rules and incidents, and where they come from.

use vstd::prelude::*;

verus! {

/// The permanent identifier of a rule: a 128-bit value.
#[derive(Clone, Copy, Debug, PartialEq, Eq, Structural, Hash)]
pub struct RuleId(pub u128);

/// The identifier of an incident, chosen by the caller.
#[derive(Clone, Copy, Debug, PartialEq, Eq, Structural, Hash)]
pub struct IncidentId(pub u128);

/// The 128-bit value of the UUID that `text` denotes, `None` where `text`
/// is not the text of a UUID.
pub uninterp spec fn uuid_of_text(text: Seq<char>) -> Option<u128>;

/// The number that `bytes` spell, most significant byte first.
pub open spec fn big_endian(bytes: Seq<u8>) -> nat
    decreases bytes.len(),
{
    if bytes.len() == 0 {
        0
    } else {
        big_endian(bytes.drop_last()) * 256 + bytes.last() as nat
    }
}

/// Trusted: `uuid::Uuid::parse_str`, followed by `Uuid::as_u128`. The result
/// is a function of the text alone; it is `None` exactly where the parser
/// reports an error.
#[verifier::external_body]
pub(crate) fn parse_uuid(text: &str) -> (r: Option<u128>)
    ensures
        r == uuid_of_text(text@),
{
    match uuid::Uuid::parse_str(text) {
        Ok(id) => Some(id.as_u128()),
        Err(_) => None,
    }
}

/// Trusted: `uuid::Uuid::from_slice`, followed by `Uuid::as_u128`. On sixteen
/// bytes the call succeeds, and the value reads them most significant first.
#[verifier::external_body]
pub(crate) fn uuid_from_slice(bytes: &[u8; 16]) -> (r: Option<u128>)
    ensures
        r == Some(big_endian(bytes@) as u128),
{
    match uuid::Uuid::from_slice(bytes) {
        Ok(id) => Some(id.as_u128()),
        Err(_) => None,
    }
}

/// Trusted: `getrandom::getrandom`. Returns whether the buffer was filled;
/// nothing is known of the bytes.
#[verifier::external_body]
pub(crate) fn fill_random(buf: &mut [u8; 16]) -> (ok: bool) {
    getrandom::getrandom(buf).is_ok()
}

impl RuleId {
    /// The identifier that sixteen bytes spell, most significant byte first.
    pub fn from_bytes(bytes: &[u8; 16]) -> (r: Option<RuleId>)
        ensures
            r == Some(RuleId(big_endian(bytes@) as u128)),
    {
        match uuid_from_slice(bytes) {
            Some(value) => Some(RuleId(value)),
            None => None,
        }
    }
}

impl IncidentId {
    /// Reads an incident identifier from its text.
    pub fn parse(text: &str) -> (r: Option<IncidentId>)
        ensures
            r == match uuid_of_text(text@) {
                Some(value) => Some(IncidentId(value)),
                None => None,
            },
    {
        match parse_uuid(text) {
            Some(value) => Some(IncidentId(value)),
            None => None,
        }
    }
}

/// Draws a fresh identifier from the system's random source. `None` where
/// the source failed.
pub fn generate_random_uuid() -> (r: Option<RuleId>) {
    let mut buf = [0u8; 16];
    if !fill_random(&mut buf) {
        return None;
    }
    RuleId::from_bytes(&buf)
}

} // verus!
