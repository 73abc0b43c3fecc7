//! The error type that stops a run.

use vstd::prelude::*;

verus! {

/// A critical error: something has happened so that the run has to stop,
/// but gracefully.
#[derive(Debug)]
pub struct StopError {
    /// A message to show the user before stopping.
    pub msg: String,
}

impl StopError {
    /// Wrap a message.
    pub fn new(msg: String) -> (r: StopError)
        ensures
            r.msg@ == msg@,
    {
        StopError { msg }
    }

    /// The message to show the user.
    pub fn message(&self) -> (r: &String)
        ensures
            r@ == self.msg@,
    {
        &self.msg
    }
}

} // verus!
