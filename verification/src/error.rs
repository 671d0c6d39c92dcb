//! Error values reported by the programs built on this library.

use vstd::prelude::*;

verus! {

/// An error from clustering fire detections into a database.
#[derive(Debug, Clone, Copy)]
pub struct FindFireError {
    /// What went wrong.
    pub msg: &'static str,
}

/// An error from connecting clusters into fires.
#[derive(Debug, Clone, Copy)]
pub struct ConnectFireError {
    /// What went wrong.
    pub msg: &'static str,
}

impl FindFireError {
    /// The message of this error, as it is displayed.
    pub fn message(&self) -> (r: &'static str)
        ensures
            r == self.msg,
    {
        self.msg
    }
}

impl ConnectFireError {
    /// The message of this error, as it is displayed.
    pub fn message(&self) -> (r: &'static str)
        ensures
            r == self.msg,
    {
        self.msg
    }
}

} // verus!
