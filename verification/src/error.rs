use vstd::prelude::*;

verus! {

/// Error of a storage operation, carrying a human-readable message
#[derive(Debug, Clone, PartialEq, Eq)]
pub struct Error {
    pub message: String,
}

impl Error {
    /// Create an error from a message
    pub fn new(message: String) -> (e: Self)
        ensures
            e.message@ == message@,
    {
        Error { message }
    }

    /// The message of the error
    pub fn describe(&self) -> (s: String)
        ensures
            s@ == self.message@,
    {
        self.message.clone()
    }
}

/// Result of a storage operation
pub type Result<T> = core::result::Result<T, Error>;

} // verus!
