//! The error of a versioned decode.
use vstd::prelude::*;
use crate::dispatch::InvalidVersionError;

verus! {

/// A decode error of the underlying decoder, a recorded version that the
/// type does not declare, or a message.
#[derive(Debug, PartialEq, Eq, Hash)]
pub enum Error<E> {
    DeserializeError(E),
    InvalidVersionError(InvalidVersionError),
    Message(String),
}

/// One layer of an error that wraps an error of the same kind: the inner
/// decode error, or the version error or message at whichever layer it is.
pub open spec fn reduced<E>(e: Error<Error<E>>) -> Error<E> {
    match e {
        Error::Message(m) => Error::Message(m),
        Error::InvalidVersionError(v) => Error::InvalidVersionError(v),
        Error::DeserializeError(Error::Message(m)) => Error::Message(m),
        Error::DeserializeError(Error::InvalidVersionError(v)) => Error::InvalidVersionError(v),
        Error::DeserializeError(Error::DeserializeError(d)) => Error::DeserializeError(d),
    }
}

impl<E> Error<Error<E>> {
    /// Collapses an error that wraps an error of the same kind.
    pub fn reduce(self) -> (r: Error<E>)
        ensures
            r == reduced(self),
    {
        match self {
            Error::Message(m) => Error::Message(m),
            Error::InvalidVersionError(v) => Error::InvalidVersionError(v),
            Error::DeserializeError(Error::Message(m)) => Error::Message(m),
            Error::DeserializeError(Error::InvalidVersionError(v)) => Error::InvalidVersionError(v),
            Error::DeserializeError(Error::DeserializeError(d)) => Error::DeserializeError(d),
        }
    }
}

} // verus!
