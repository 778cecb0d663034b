//! The ways in which the transport can fail.

use vstd::prelude::*;

verus! {

/// Every failure the library reports.
#[derive(Debug, Clone, Copy, PartialEq, Eq, Structural)]
pub enum Error {
    /// The critical section was entered while it was already held.
    ReentrancyViolation,
    /// A configuration string names an encoding other than `raw` and `rzcobs`.
    UnknownEncoding,
    /// Two entries offered to a table share an index.
    DuplicateIndex,
    /// Two entries offered to a table share a raw symbol.
    DuplicateSymbol,
    /// A frame refers to an index that the table does not hold.
    UnresolvedIndex,
    /// The table was generated for a protocol version that is not supported.
    UnsupportedVersion,
    /// A frame is too short to hold an index, or its byte stuffing cannot be undone.
    MalformedFrame,
}

} // verus!
