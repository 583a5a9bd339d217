//! The three-outcome result algebra used by every save operation: a save
//! either completes (`Full`), stops partway for a stated reason (`Partial`,
//! carrying whatever was legitimately produced), or fails before anything
//! was done (`Error`).

use vstd::prelude::*;
use crate::ioerr::{IoError, IoErrorKind};

verus! {

/// Why a save operation stopped partway through.
#[derive(Clone, Copy, Debug, PartialEq, Eq, Structural)]
pub enum PartialReason {
    /// The count limit for file fields in the request was hit; the field
    /// that exceeded it was left completely unread.
    CountLimit,
    /// The size limit for one field was hit; the field was truncated to
    /// exactly the limit.
    SizeLimit,
    /// An operating-system failure interrupted the operation.
    IoError(IoError),
}

impl From<IoError> for PartialReason {
    fn from(e: IoError) -> (r: Self) {
        PartialReason::IoError(e)
    }
}

impl vstd::std_specs::convert::FromSpecImpl<IoError> for PartialReason {
    open spec fn obeys_from_spec() -> bool {
        true
    }

    open spec fn from_spec(e: IoError) -> Self {
        PartialReason::IoError(e)
    }
}

impl PartialReason {
    /// Return the failure in the `IoError` case; other cases are a caller
    /// error and are excluded up front.
    pub fn unwrap_err(self) -> (e: IoError)
        requires
            self is IoError,
        ensures
            self == PartialReason::IoError(e),
    {
        self.expect_err("the reason was a policy limit, not an I/O failure")
    }

    /// Return the failure in the `IoError` case; the message names the call
    /// site's expectation. Other cases are excluded up front.
    pub fn expect_err(self, msg: &str) -> (e: IoError)
        requires
            self is IoError,
        ensures
            self == PartialReason::IoError(e),
    {
        let _ = msg;
        match self {
            PartialReason::IoError(e) => e,
            _ => vstd::pervasive::unreached(),
        }
    }
}

/// The ternary outcome of a save operation.
#[derive(Debug)]
pub enum SaveResult<S, P> {
    /// The operation was a total success.
    Full(S),
    /// The operation quit partway through, with the partial result and the
    /// reason it stopped.
    Partial(P, PartialReason),
    /// The operation failed before anything was produced.
    Error(IoError),
}

/// A partial payload that can be collapsed into the success type, dropping
/// any bookkeeping that only matters while the save is still in flight.
pub trait Collapse<S> {
    /// The success value this partial payload collapses to.
    spec fn collapse_view(&self) -> S;

    fn collapse(self) -> (r: S)
        ensures
            r == self.collapse_view(),
    ;
}

impl Collapse<u64> for u64 {
    open spec fn collapse_view(&self) -> u64 {
        *self
    }

    fn collapse(self) -> u64 {
        self
    }
}

impl Collapse<usize> for usize {
    open spec fn collapse_view(&self) -> usize {
        *self
    }

    fn collapse(self) -> usize {
        self
    }
}

impl<S, P: Collapse<S>> SaveResult<S, P> {
    /// Convert to `Option`, optimistically collapsing a partial result;
    /// there may still have been an error.
    pub fn okish(self) -> (r: Option<S>)
        ensures
            match self {
                SaveResult::Full(s) => r == Some(s),
                SaveResult::Partial(p, _) => r == Some(p.collapse_view()),
                SaveResult::Error(_) => r is None,
            },
    {
        match self {
            SaveResult::Full(s) => Some(s),
            SaveResult::Partial(p, _) => Some(p.collapse()),
            SaveResult::Error(_) => None,
        }
    }

    /// Map the `Full` or `Partial` payload to a new type, keeping the
    /// reason in the `Partial` case.
    pub fn map<T, F: FnOnce(S) -> T>(self, f: F) -> (r: SaveResult<T, T>)
        requires
            match self {
                SaveResult::Full(s) => f.requires((s,)),
                SaveResult::Partial(p, _) => f.requires((p.collapse_view(),)),
                SaveResult::Error(_) => true,
            },
        ensures
            match (self, r) {
                (SaveResult::Full(s), SaveResult::Full(t)) => f.ensures((s,), t),
                (SaveResult::Partial(p, reason1), SaveResult::Partial(t, reason2)) => {
                    &&& reason1 == reason2
                    &&& f.ensures((p.collapse_view(),), t)
                },
                (SaveResult::Error(e1), SaveResult::Error(e2)) => e1 == e2,
                _ => false,
            },
    {
        match self {
            SaveResult::Full(s) => SaveResult::Full(f(s)),
            SaveResult::Partial(p, reason) => SaveResult::Partial(f(p.collapse()), reason),
            SaveResult::Error(e) => SaveResult::Error(e),
        }
    }

    /// Decompose into an optional best-effort payload plus the optional
    /// underlying failure, for callers who want both.
    pub fn into_opt_both(self) -> (r: (Option<S>, Option<IoError>))
        ensures
            match self {
                SaveResult::Full(s) => r.0 == Some(s) && r.1 is None,
                SaveResult::Partial(p, reason) => {
                    &&& r.0 == Some(p.collapse_view())
                    &&& match reason {
                        PartialReason::IoError(e) => r.1 == Some(e),
                        _ => r.1 is None,
                    }
                },
                SaveResult::Error(e) => r.0 is None && r.1 == Some(e),
            },
    {
        match self {
            SaveResult::Full(s) => (Some(s), None),
            SaveResult::Partial(p, PartialReason::IoError(e)) => (Some(p.collapse()), Some(e)),
            SaveResult::Partial(p, _) => (Some(p.collapse()), None),
            SaveResult::Error(e) => (None, Some(e)),
        }
    }

    /// Collapse to an ordinary result, optimistically treating a partial
    /// outcome as success and discarding its reason.
    pub fn into_result(self) -> (r: Result<S, IoError>)
        ensures
            match self {
                SaveResult::Full(s) => r == Ok::<S, IoError>(s),
                SaveResult::Partial(p, _) => r == Ok::<S, IoError>(p.collapse_view()),
                SaveResult::Error(e) => r == Err::<S, IoError>(e),
            },
    {
        match self {
            SaveResult::Full(s) => Ok(s),
            SaveResult::Partial(p, _) => Ok(p.collapse()),
            SaveResult::Error(e) => Err(e),
        }
    }

    /// Collapse to an ordinary result, treating a partial outcome as a
    /// failure exactly when its reason was an I/O error — distinguishing
    /// "hit a configured limit" from "something broke".
    pub fn into_result_strict(self) -> (r: Result<S, IoError>)
        ensures
            match self {
                SaveResult::Full(s) => r == Ok::<S, IoError>(s),
                SaveResult::Partial(p, reason) => match reason {
                    PartialReason::IoError(e) => r == Err::<S, IoError>(e),
                    _ => r == Ok::<S, IoError>(p.collapse_view()),
                },
                SaveResult::Error(e) => r == Err::<S, IoError>(e),
            },
    {
        match self {
            SaveResult::Full(s) => Ok(s),
            SaveResult::Partial(_, PartialReason::IoError(e)) => Err(e),
            SaveResult::Partial(p, _) => Ok(p.collapse()),
            SaveResult::Error(e) => Err(e),
        }
    }
}

} // verus!
