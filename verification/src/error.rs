//! Why a transfer ended without success.

use vstd::prelude::*;

verus! {

/// A fatal error of a transfer session.
#[derive(Clone, Copy, Debug, PartialEq, Eq, Structural)]
pub enum TransferError {
    /// The check computed over an inbound packet differs from the one it
    /// carries.
    ChecksumMismatch,
    /// The remote end sent something that the protocol does not allow at
    /// that point: a packet of an unexpected type, a packet without its
    /// start marker, a reply that is no acknowledgment.
    ProtocolViolation,
    /// The remote end cancelled the transfer.
    TransferCancelled,
    /// The transport failed to read or write, or timed out.
    TransportIO,
    /// A packet was refused as often as the protocol allows it to be sent.
    RetryExhausted,
}

} // verus!
