//! What the library needs to know of JSON: whether bytes are a document, and
//! whether two documents say the same.

use vstd::prelude::*;

verus! {

/// The value that `bytes` encode as a JSON document, in a canonical
/// encoding: two byte strings have the same one exactly when they parse to
/// equal values. `None` where `bytes` are no JSON document.
pub uninterp spec fn json_document(bytes: Seq<u8>) -> Option<Seq<u8>>;

/// The four bytes of the JSON text `null`.
pub open spec fn null_text() -> Seq<u8> {
    seq![0x6eu8, 0x75u8, 0x6cu8, 0x6cu8]
}

/// The value of `bytes`, where bytes that are no document count as `null`.
pub open spec fn json_value(bytes: Seq<u8>) -> Seq<u8> {
    match json_document(bytes) {
        Some(value) => value,
        None => json_document(null_text())->0,
    }
}

/// Trusted: `serde_json::from_slice` into a `serde_json::Value`. Says whether
/// the parser accepts the bytes.
#[verifier::external_body]
pub(crate) fn is_json(bytes: &Vec<u8>) -> (ok: bool)
    ensures
        ok == json_document(bytes@).is_some(),
{
    serde_json::from_slice::<serde_json::Value>(bytes).is_ok()
}

/// Trusted: `serde_json::from_slice` on each argument, then `==` on the two
/// `serde_json::Value`s. Bytes that do not parse stand for the default value,
/// which is `null`.
#[verifier::external_body]
pub(crate) fn json_equal(a: &Vec<u8>, b: &Vec<u8>) -> (same: bool)
    ensures
        same == (json_value(a@) == json_value(b@)),
{
    let left: serde_json::Value = serde_json::from_slice(a).unwrap_or_default();
    let right: serde_json::Value = serde_json::from_slice(b).unwrap_or_default();
    left == right
}

} // verus!
