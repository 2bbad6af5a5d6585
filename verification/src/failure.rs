//! What an extraction fails with.

use vstd::prelude::*;

use crate::text;

verus! {

/// The kind of operation that failed.
#[derive(Debug, Clone, Copy, PartialEq, Eq, Structural)]
pub enum ErrorKind {
    /// An operation on files or directories.
    FileOperationFailure,
    /// Starting or running another program.
    ProcessSpawnFailure,
}

/// A failed extraction.
#[derive(Debug)]
pub struct ExtractError {
    /// What failed.
    pub kind: ErrorKind,
    /// What is told to the user.
    pub message: String,
}

/// A failed extraction, as contracts speak of it.
pub struct Failure {
    /// What failed.
    pub kind: ErrorKind,
    /// What is told to the user.
    pub message: Seq<char>,
}

impl View for ExtractError {
    type V = Failure;

    open spec fn view(&self) -> Failure {
        Failure { kind: self.kind, message: self.message@ }
    }
}

/// An error is its kind and its message.
pub proof fn law_error_view(error: ExtractError)
    ensures
        error@.kind == error.kind,
        error@.message == error.message@,
{
}

/// A failed operation on files, told as `what`, a colon, and `detail`.
pub open spec fn file_failure(what: Seq<char>, detail: Seq<char>) -> Failure {
    Failure { kind: ErrorKind::FileOperationFailure, message: what + ": "@ + detail }
}

impl ExtractError {
    /// An error told as `what`, a colon, and `detail`.
    pub fn with_detail(kind: ErrorKind, what: &str, detail: &str) -> (res: ExtractError)
        ensures
            res@ == (Failure { kind, message: what@ + ": "@ + detail@ }),
    {
        let front: String = text::concat(what, ": ");
        ExtractError { kind, message: text::concat(front.as_str(), detail) }
    }
}

} // verus!
