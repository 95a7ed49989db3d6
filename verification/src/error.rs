//! Error taxonomy for the store and the listing engine.

use vstd::prelude::*;

verus! {

/// Failures surfaced by the entity store and the listing engine.
#[derive(Clone, Copy, Debug, PartialEq, Eq, Structural)]
pub enum Error {
    /// A request parameter is malformed or out of range
    /// (for example a non-positive page number or page size).
    ValidationError,
    /// A uniqueness constraint was violated on the write path.
    ConstraintViolation,
    /// No store connection could be acquired.
    ConnectionUnavailable,
    /// A store-level failure during a read.
    QueryFailed,
    /// A write transaction was aborted; nothing was persisted.
    WriteFailed,
}

} // verus!
