//! The error the library reports to its callers: a kind a caller can branch on, and a message
//! written to be acted on.
use vstd::prelude::*;

verus! {

/// What kind of failure an [`NxfError`] is.
#[derive(Debug, Clone, Copy, PartialEq, Eq, Structural)]
pub enum ErrorKind {
    /// The request cannot be carried out as asked; the message says what to ask instead.
    Validation,
    /// Reading or writing outside the process failed.
    Io,
}

/// A failure, with the kind a caller branches on and the message a reader acts on.
#[derive(Debug, Clone, PartialEq, Eq)]
pub struct NxfError {
    pub kind: ErrorKind,
    pub msg: String,
}

impl NxfError {
    /// A request that cannot be carried out as asked.
    pub fn validation(msg: String) -> (e: NxfError)
        ensures
            e.kind == ErrorKind::Validation,
            e.msg == msg,
    {
        NxfError { kind: ErrorKind::Validation, msg }
    }

    /// A failed read or write.
    pub fn io(msg: String) -> (e: NxfError)
        ensures
            e.kind == ErrorKind::Io,
            e.msg == msg,
    {
        NxfError { kind: ErrorKind::Io, msg }
    }
}

} // verus!
