use serde_json::Error as SerdeJsonError;
use vstd::prelude::*;

verus! {

/// A filesystem or lock error, carried through unread.
#[verifier::external_type_specification]
#[verifier::external_body]
pub struct ExIoError(std::io::Error);

/// A JSON encoding or decoding error, carried through unread.
#[verifier::external_type_specification]
#[verifier::external_body]
pub struct ExJsonError(SerdeJsonError);

} // verus!
