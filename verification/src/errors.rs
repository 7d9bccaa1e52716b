use vstd::prelude::*;

verus! {

/// The failure kinds of the sync flow. Any of them aborts the current cycle;
/// the flow performs no internal retry, the supervisor decides what happens next.
#[derive(Clone, Copy, PartialEq, Eq, Structural, Debug)]
pub enum SyncError {
    /// An inbound message of an unexpected kind arrived, or the inbound channel
    /// closed while a message was expected.
    ProtocolViolation,
    /// An outbound enqueue failed, typically because the peer is gone.
    TransportFailure,
    /// The ledger session reported missing or unavailable data.
    LedgerQueryFailure,
    /// A block referenced a trusted hash that is absent from the index sequences
    /// fetched for this cycle; an internal-consistency fault, never sent as a
    /// wrong index.
    IndexInvariantViolation,
}

} // verus!
