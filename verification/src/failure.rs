//! Failures of the operating system, as far as decisions depend on them.

use vstd::prelude::*;

verus! {

/// The kinds of failure that decisions tell apart.
#[derive(Clone, Copy, Debug, PartialEq, Eq, Structural)]
pub enum FailureKind {
    NotFound,
    InvalidInput,
    BrokenPipe,
    ConnectionReset,
    ConnectionAborted,
    Other,
}

/// A failed system operation: its kind and its text for the user.
#[derive(Debug)]
pub struct Failure {
    pub kind: FailureKind,
    pub message: String,
}

/// What a [`Failure`] says.
pub struct FailureView {
    pub kind: FailureKind,
    pub message: Seq<char>,
}

impl View for Failure {
    type V = FailureView;

    open spec fn view(&self) -> FailureView {
        FailureView { kind: self.kind, message: self.message@ }
    }
}

/// The outcome of an operation that yields nothing, over what it says.
pub open spec fn outcome_view(r: Result<(), Failure>) -> Result<(), FailureView> {
    match r {
        Ok(_) => Ok(()),
        Err(f) => Err(f@),
    }
}

/// The outcome of an operation that yields bytes, over what it says.
pub open spec fn bytes_view(r: Result<Vec<u8>, Failure>) -> Result<Seq<u8>, FailureView> {
    match r {
        Ok(b) => Ok(b@),
        Err(f) => Err(f@),
    }
}

} // verus!
