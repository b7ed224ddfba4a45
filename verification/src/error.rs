//! The error type shared by every fallible operation of the library.
//!
//! An error carries a human-readable message describing cause and scope; it
//! is never used as ordinary control flow beyond "stop this sub-operation
//! and report".
use vstd::prelude::*;

verus! {

#[derive(Debug)]
pub struct Error {
    pub message: String,
}

impl Error {
    pub fn new(message: &str) -> (r: Error)
        ensures
            r.message@ == message@,
    {
        Error { message: message.to_owned() }
    }

    /// The message text, for callers that report the error.
    pub fn message(&self) -> (r: &str)
        ensures
            r@ == self.message@,
    {
        self.message.as_str()
    }
}

} // verus!
