//! A minimal persistent key-value store built on an append-only command log.
//!
//! The store keeps every `set` and `remove` as one encoded line of a
//! write-ahead log and rebuilds its in-memory index by replaying that log
//! from the start.  The log is the single source of truth; the index is a
//! derived, disposable cache.
//!
//! This crate holds the verified core: the record codec, the index, the
//! replay engine and the store facade, all working on an in-memory copy of
//! the log's lines.  Reading the log file and appending new lines to it is
//! plain file I/O and lives with the caller.
use vstd::prelude::*;

pub mod index;
pub mod laws;
pub mod record;
pub mod shell;
pub mod replay;
pub mod store;

verus! {

/// The error kinds a store operation can report.
///
/// Failures are always returned to the caller; none are swallowed and none
/// abort the process.
#[derive(Debug, Clone, Copy, PartialEq, Eq, Structural)]
pub enum KvError {
    /// The log file could not be created or opened.
    StoreOpenError,
    /// A log line could not be decoded.
    CorruptRecord,
    /// A removal was requested for a key that is not present.
    KeyNotFound,
    /// An append or read on the log failed.
    IoError,
}

} // verus!
