use vstd::prelude::*;

verus! {

/// A document's payload: a JSON value, opaque to the proofs.
#[verifier::external_type_specification]
#[verifier::external_body]
pub struct ExValue(serde_json::Value);

/// The value that JSON text decodes to, if it is JSON at all.
pub uninterp spec fn json_decode(bytes: Seq<u8>) -> Option<serde_json::Value>;

/// The pretty-printed JSON text of a value.
pub uninterp spec fn json_encode(value: serde_json::Value) -> Seq<u8>;

/// Relies on `serde_json::from_slice`: whether the bytes decode, and to what
/// value, depends on the bytes alone.
#[verifier::external_body]
pub(crate) fn decode(bytes: &[u8]) -> (r: Result<serde_json::Value, serde_json::Error>)
    ensures
        r is Ok <==> json_decode(bytes@) is Some,
        r matches Ok(v) ==> json_decode(bytes@) == Some(v),
{
    serde_json::from_slice(bytes)
}

/// Relies on `serde_json::to_vec_pretty`: the text depends on the value
/// alone, and writing a `Value` (string keys only) into a `Vec` never fails.
#[verifier::external_body]
pub(crate) fn encode(value: &serde_json::Value) -> (r: Result<Vec<u8>, serde_json::Error>)
    ensures
        r is Ok,
        r matches Ok(b) ==> b@ == json_encode(*value),
{
    serde_json::to_vec_pretty(value)
}

} // verus!
