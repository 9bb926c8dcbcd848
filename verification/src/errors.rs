//! Error taxonomy of the core. Storage and decode failures are fatal to
//! the node that hits them; the remaining kinds are recoverable by the
//! caller (redirect, retry, or report).

use vstd::prelude::*;

verus! {

/// Every failure the core can surface to a caller.
#[derive(Clone, Copy, Debug, PartialEq, Eq, Structural)]
pub enum CoreError {
    /// I/O or corruption in the backing store; fatal to the owning node.
    Storage,
    /// A compaction bound past the end of the log; caller may retry.
    Compaction,
    /// No decoder registered, or the bytes do not parse.
    Decoding,
    /// A plugin state could not be encoded.
    Encoding,
    /// Application logic failed while applying a committed entry.
    Apply,
    /// A proposal reached a node that is not the current leader.
    NotLeader,
    /// The transport could not reach the given address.
    Connection,
    /// No leader reachable to reserve a node id, or the id space is spent.
    IdReservation,
}

} // verus!
