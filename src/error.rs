use vstd::prelude::*;

verus! {

/// What can go wrong in a store operation.
#[derive(Debug)]
pub enum Error {
    /// Text that is not a well-formed identifier.
    InvalidId,
    /// A filesystem or lock failure.
    IoError(std::io::Error),
    /// A payload that could not be encoded or decoded.
    JsonError(serde_json::Error),
    /// No unused identifier was found within the bounded number of draws.
    NoFreeId,
}

impl From<std::io::Error> for Error {
    fn from(error: std::io::Error) -> (r: Error)
        ensures
            r == Error::IoError(error),
    {
        Error::IoError(error)
    }
}

impl vstd::std_specs::convert::FromSpecImpl<std::io::Error> for Error {
    open spec fn obeys_from_spec() -> bool {
        true
    }

    open spec fn from_spec(v: std::io::Error) -> Error {
        Error::IoError(v)
    }
}

impl From<serde_json::Error> for Error {
    fn from(error: serde_json::Error) -> (r: Error)
        ensures
            r == Error::JsonError(error),
    {
        Error::JsonError(error)
    }
}

impl vstd::std_specs::convert::FromSpecImpl<serde_json::Error> for Error {
    open spec fn obeys_from_spec() -> bool {
        true
    }

    open spec fn from_spec(v: serde_json::Error) -> Error {
        Error::JsonError(v)
    }
}

} // verus!
