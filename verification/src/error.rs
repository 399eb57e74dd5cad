//! The errors that file operations and searches report.

use crate::path::Segment;
use vstd::prelude::*;

verus! {

/// Why an operation was refused or could not be carried out.
#[derive(Debug)]
pub enum FsError {
    /// The path resolves outside the workspace root; carries the offending
    /// path in normal form.
    AccessDenied(Vec<Segment>),
    /// Nothing exists at the path.
    NotFound(String),
    /// The operating system reported a failure.
    IOError(String),
    /// The file looks like binary data.
    BinaryFile,
    /// The file is larger than the configured limit.
    TooLarge,
    /// A regular expression or glob of a query is malformed; carries the
    /// pattern as it was given.
    InvalidPattern(String),
    /// The file system at hand cannot perform the operation.
    Unsupported,
}

} // verus!
