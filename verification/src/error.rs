//! The failures that the library reports.

use vstd::prelude::*;

verus! {

/// The kinds of failure. The first four are the library's own; a failure of
/// the file system keeps the kind under which it was handed in.
#[derive(Clone, Copy, Debug, PartialEq, Eq, Structural)]
pub enum ErrorKind {
    /// A file name or a path is empty.
    InvalidInput,
    /// A file, a folder or the resource root is not there.
    NotFound,
    /// The file system refused the access.
    PermissionDenied,
    /// A row does not fit the schema of a record.
    InvalidData,
    /// Any other failure of the file system.
    Other,
}

/// A failure: its kind, and a message for the reader.
#[derive(Clone, Debug, PartialEq, Eq)]
pub struct LoadError {
    pub kind: ErrorKind,
    pub message: String,
}

impl LoadError {
    /// A failure of the given kind with the given message.
    pub fn new(kind: ErrorKind, message: String) -> (error: LoadError)
        ensures
            error.kind == kind,
            error.message@ == message@,
    {
        LoadError { kind, message }
    }

    /// The message, as the failure is shown to a reader.
    pub fn to_string(&self) -> (text: String)
        ensures
            text@ == self.message@,
    {
        self.message.clone()
    }
}

} // verus!
