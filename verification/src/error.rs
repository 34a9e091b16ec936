//! Why a transfer was given up, or a datagram turned away.

use vstd::prelude::*;

verus! {

/// The failures that a transfer session reports.
#[derive(Clone, Copy, Debug, PartialEq, Eq, Structural)]
pub enum TransferError {
    /// No acknowledgment of chunk `chunk_index` arrived in any of `attempts`
    /// transmissions. Fatal to the transfer.
    TransferTimedOut { chunk_index: u64, attempts: u32 },
    /// The channel itself failed. Fatal to the session, never retried.
    ChannelError,
    /// A datagram of `length` bytes is too short to hold the sequence index.
    /// The datagram is dropped and the session goes on.
    MalformedUnit { length: usize },
    /// A data unit names a position that no buffer on this machine can hold.
    /// The datagram is dropped and the session goes on.
    IndexOutOfRange { sequence_index: u64 },
}

} // verus!
