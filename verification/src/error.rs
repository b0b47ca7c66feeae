//! The error type of the agent: a message.

use vstd::prelude::*;

verus! {

/// An error, carried as its message.
#[derive(Debug)]
pub struct Error(pub String);

impl Error {
    /// An error with message `s`.
    pub fn msg(s: String) -> (r: Error)
        ensures
            r.0@ == s@,
    {
        Error(s)
    }
}

} // verus!
