//! Persists the fields of a parsed multipart request — short text values or
//! arbitrarily large byte streams — to memory or to a save directory, under
//! configurable per-field size limits and whole-request count limits, with an
//! explicit three-outcome (full / partial / error) result model.
//!
//! The field source, the spill destinations and the save directory are
//! collaborators reached through traits; in-memory implementations of each
//! live in this crate, so the whole save pipeline is checked end to end.

pub mod ioerr;
pub mod save_result;
pub mod stream;
pub mod entries;
pub mod builder;
pub mod source;
