//! Error kinds surfaced by the persistence layer.

use vstd::prelude::*;

verus! {

/// The error kinds this layer reports. They propagate to the caller
/// unmodified; no retry happens inside this layer.
#[derive(Clone, Copy, Debug, PartialEq, Eq, Structural)]
pub enum StoreError {
    /// The underlying engine failed a get, put, delete or scan.
    StorageIo,
    /// Stored bytes failed to decode into a branch node or a root digest.
    Encoding,
    /// The engine detected a conflicting concurrent transaction at commit.
    WriteConflict,
    /// After a bulk reset the recomputed root was not the all-zero digest.
    ClearInvariantViolation,
}

} // verus!
