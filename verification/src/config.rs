//! What a transfer session is set up with.

use vstd::prelude::*;

verus! {

/// How often a data unit is transmitted before the transfer is given up.
pub const MAX_ATTEMPTS: u32 = 10;

/// How long a sender waits for an acknowledgment, in milliseconds.
pub const ACK_TIMEOUT_MILLIS: u64 = 1000;

/// The retry budget and the acknowledgment timeout of a sender.
///
/// The library counts attempts; the timeout is for the driver that waits on
/// the channel.
#[derive(Clone, Copy, Debug, PartialEq, Eq, Structural)]
pub struct ArqConfig {
    /// Transmissions of one data unit, the first included, before the
    /// transfer fails.
    pub max_attempts: u32,
    /// Milliseconds to wait for an acknowledgment after each transmission.
    pub ack_timeout_millis: u64,
}

impl Default for ArqConfig {
    /// Ten attempts, one second each.
    fn default() -> (config: Self)
        ensures
            config.max_attempts == MAX_ATTEMPTS,
            config.ack_timeout_millis == ACK_TIMEOUT_MILLIS,
    {
        ArqConfig { max_attempts: MAX_ATTEMPTS, ack_timeout_millis: ACK_TIMEOUT_MILLIS }
    }
}

} // verus!
