//! Failures of the storage operations, each tagged with the store's label.
use vstd::prelude::*;

verus! {

/// Why a storage operation failed.
#[derive(PartialEq, Eq, Structural, Clone, Debug)]
pub enum ErrorKind {
    /// The key is not in the store.
    KeyNotFound,
    /// The backing file does not exist.
    FileNotFound,
    /// A legacy file lacks its first line or that line is no version header.
    MissingHeader,
    /// The file declares a format version other than the one expected.
    VersionMismatch { expected: i32, found: i32 },
    /// The file looks like the legacy format but a line of it does not parse.
    MalformedLegacy,
    /// The structured content could not be decoded.
    Malformed,
    /// A flush left the file's modification time where it was.
    TimestampNotUpdated,
    /// The filesystem reported a failure.
    Io,
}

/// A failure, with the diagnostic label of the store that met it.
#[derive(Clone, Debug)]
pub struct StorageError {
    pub label: String,
    pub kind: ErrorKind,
}

impl StorageError {
    pub fn new(label: &String, kind: ErrorKind) -> (r: StorageError)
        ensures
            r.label@ == label@,
            r.kind == kind,
    {
        StorageError { label: label.clone(), kind }
    }
}

} // verus!
