//! The error taxonomy of the node framework.
//!
//! Errors that affect only a single request are wrapped into that
//! request's response and returned; they never stop the node loop.
//! Leadership redirects are not errors and are reported separately, as
//! `WrongLeader` outcomes of the response types.

use vstd::prelude::*;

verus! {

/// One error kind per failure class of the framework.
#[derive(Clone, Copy, PartialEq, Eq, Structural, Debug)]
pub enum Error {
    /// The pluggable state machine failed to apply a committed entry.
    /// Fatal to that entry's effect, not to the node.
    ApplyError,
    /// A payload could not be decoded at a storage or protocol boundary.
    DecodingError,
    /// A payload could not be encoded at a storage or protocol boundary.
    EncodingError,
    /// A snapshot was rejected as stale: its index does not exceed the
    /// receiver's current snapshot index.
    RestoreError,
    /// A malformed request, e.g. a configuration change naming an
    /// unknown node id.
    WrongArgumentError,
    /// Snapshot creation failed; compaction for that cycle is skipped.
    SnapshotError,
    /// An append batch would leave a gap in the log, or is itself not
    /// contiguous; the store is left unchanged.
    LogGap,
    /// A read asked for entries at or below the compacted index.
    LogCompacted,
    /// A read asked for entries beyond the last appended index.
    LogOutOfRange,
    /// The node has already stopped and takes no further requests.
    NodeStopped,
}

impl Error {
    /// A short, stable name for the error kind, for diagnostics.
    pub fn kind_name(&self) -> (r: &'static str)
        ensures
            (*self is ApplyError) ==> r@ == "apply error"@,
            (*self is DecodingError) ==> r@ == "decoding error"@,
            (*self is EncodingError) ==> r@ == "encoding error"@,
            (*self is RestoreError) ==> r@ == "restore error"@,
            (*self is WrongArgumentError) ==> r@ == "wrong argument"@,
            (*self is SnapshotError) ==> r@ == "snapshot error"@,
            (*self is LogGap) ==> r@ == "log gap"@,
            (*self is LogCompacted) ==> r@ == "log compacted"@,
            (*self is LogOutOfRange) ==> r@ == "log out of range"@,
            (*self is NodeStopped) ==> r@ == "node stopped"@,
    {
        match self {
            Error::ApplyError => "apply error",
            Error::DecodingError => "decoding error",
            Error::EncodingError => "encoding error",
            Error::RestoreError => "restore error",
            Error::WrongArgumentError => "wrong argument",
            Error::SnapshotError => "snapshot error",
            Error::LogGap => "log gap",
            Error::LogCompacted => "log compacted",
            Error::LogOutOfRange => "log out of range",
            Error::NodeStopped => "node stopped",
        }
    }
}

} // verus!
