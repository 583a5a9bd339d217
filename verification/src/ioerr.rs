//! A plain-data model of the I/O failures that the save pipeline handles.
//! Only the failure kind drives any decision (interrupted reads and writes
//! are retried, everything else aborts the current copy), so an error is
//! just its kind.

use vstd::prelude::*;

verus! {

/// The kinds of I/O failure the save pipeline distinguishes.
#[derive(Clone, Copy, Debug, PartialEq, Eq, Structural)]
pub enum IoErrorKind {
    /// A transient signal; the operation is retried and never surfaced.
    Interrupted,
    /// A write call reported zero bytes written on a non-empty buffer.
    WriteZero,
    /// Content failed validation (non-UTF-8 text under a forced decode).
    InvalidData,
    /// The destination was missing.
    NotFound,
    /// The destination already exists and may not be clobbered.
    AlreadyExists,
    /// The destination refused access.
    PermissionDenied,
    /// Any other operating-system failure.
    Other,
}

/// An I/O failure, reduced to the kind that the logic inspects.
#[derive(Clone, Copy, Debug, PartialEq, Eq, Structural)]
pub struct IoError {
    pub kind: IoErrorKind,
}

impl IoError {
    pub fn new(kind: IoErrorKind) -> (r: IoError)
        ensures
            r.kind == kind,
    {
        IoError { kind }
    }

    pub fn kind(&self) -> (k: IoErrorKind)
        ensures
            k == self.kind,
    {
        self.kind
    }
}

} // verus!
