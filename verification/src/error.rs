//! The ways in which an operation on the execution state can fail.

use vstd::prelude::*;

verus! {

/// Why an operation failed.
#[derive(Debug, Clone, PartialEq, Eq)]
pub enum Error {
    /// A name would get more versions than the configured bound allows.
    LoopBoundExceeded,
    /// A node of the program does not have the shape that its kind demands.
    MalformedInstruction(String),
    /// Any other failure, with a description.
    OtherError(String),
    /// The solver was interrupted, ran out of time or failed.
    SolverError(String),
    /// A query that needs a model found the constraints unsatisfiable.
    Unsat,
}

/// The kind of an error, without its message.
#[derive(Debug, Clone, Copy, PartialEq, Eq, Structural)]
pub enum ErrorKind {
    LoopBoundExceeded,
    MalformedInstruction,
    OtherError,
    SolverError,
    Unsat,
}

impl Error {
    /// The kind of this error.
    pub open spec fn kind(self) -> ErrorKind {
        match self {
            Error::LoopBoundExceeded => ErrorKind::LoopBoundExceeded,
            Error::MalformedInstruction(_) => ErrorKind::MalformedInstruction,
            Error::OtherError(_) => ErrorKind::OtherError,
            Error::SolverError(_) => ErrorKind::SolverError,
            Error::Unsat => ErrorKind::Unsat,
        }
    }

    /// A malformed-instruction error with the given message.
    pub fn malformed(msg: &str) -> (r: Error)
        ensures
            r.kind() == ErrorKind::MalformedInstruction,
            r == Error::MalformedInstruction(r->MalformedInstruction_0),
            r->MalformedInstruction_0@ == msg@,
    {
        Error::MalformedInstruction(msg.to_owned())
    }

    /// An error of the remaining kind with the given message.
    pub fn other(msg: &str) -> (r: Error)
        ensures
            r.kind() == ErrorKind::OtherError,
            r->OtherError_0@ == msg@,
    {
        Error::OtherError(msg.to_owned())
    }

    /// A solver error with the given message.
    pub fn solver(msg: &str) -> (r: Error)
        ensures
            r.kind() == ErrorKind::SolverError,
            r->SolverError_0@ == msg@,
    {
        Error::SolverError(msg.to_owned())
    }
}

} // verus!
