//! Why a connection stopped.
use vstd::prelude::*;

verus! {

/// The reason a connection was closed.
#[derive(Debug)]
pub enum CloseReason {
    /// The connection hit end of file.
    EOF,
    /// An error ended the connection; the text says which.
    Error(String),
}

impl CloseReason {
    /// Whether `self` and `other` are the same reason, with the same text.
    pub open spec fn same_as(&self, other: &CloseReason) -> bool {
        match (self, other) {
            (CloseReason::EOF, CloseReason::EOF) => true,
            (CloseReason::Error(a), CloseReason::Error(b)) => a@ == b@,
            _ => false,
        }
    }
}

impl Clone for CloseReason {
    fn clone(&self) -> (r: Self)
        ensures
            r.same_as(self),
    {
        match self {
            CloseReason::EOF => CloseReason::EOF,
            CloseReason::Error(e) => CloseReason::Error(e.clone()),
        }
    }
}

} // verus!
