use vstd::prelude::*;

verus! {

/// The failures that encoding and decoding report.
#[derive(Clone, Debug, PartialEq)]
pub enum Error {
    /// Raised by a user of the library, for checks of their own.
    Message(String),
    /// The value has a shape that the format cannot represent.
    Unsupported,
    /// The byte stream ended, or could not be read or written.
    IO,
    /// A value does not fit its target representation.
    Overflow,
}

/// The result type of every codec operation.
pub type Result<T> = core::result::Result<T, Error>;

impl Error {
    /// Builds an error that carries a message of the caller's own.
    pub fn custom(msg: String) -> (r: Error)
        ensures
            r == Error::Message(msg),
    {
        Error::Message(msg)
    }
}

} // verus!
