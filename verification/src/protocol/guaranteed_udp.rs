//! Datagrams made reliable by stop-and-wait retransmission.

use vstd::prelude::*;
use crate::config::{ArqConfig, MAX_ATTEMPTS};
use crate::frame::PREAMBLE_SIZE;
use crate::receiver::{Receiver, ReceiverModel};
use crate::sender::{Sender, SenderModel};

verus! {

/// File transfer over datagrams with acknowledgment and retransmission.
pub struct GuaranteedUdp {}

impl GuaranteedUdp {
    /// Begins sending `file_data` in chunks of at most `packet_size` bytes,
    /// with the usual retry budget.
    ///
    /// The sender that comes back decides every step of the transfer; the
    /// caller carries its actions out on the channel.
    pub fn send_file(file_data: Vec<u8>, packet_size: usize) -> (sender: Sender)
        requires
            packet_size >= 1,
            file_data@.len() + PREAMBLE_SIZE <= usize::MAX,
        ensures
            sender.wf(),
            sender@ == SenderModel::initial(file_data@, packet_size as nat, MAX_ATTEMPTS as nat),
    {
        Sender::new(file_data, packet_size, ArqConfig::default())
    }

    /// Begins receiving a file that arrives in chunks of at most
    /// `packet_size` bytes.
    ///
    /// The receiver that comes back decides what to do with every datagram;
    /// the caller reads the channel and carries its actions out.
    pub fn receive_file(packet_size: usize) -> (receiver: Receiver)
        requires
            packet_size + PREAMBLE_SIZE <= usize::MAX,
        ensures
            receiver.wf(),
            receiver@ == ReceiverModel::initial(),
            receiver.spec_packet_size() == packet_size,
    {
        Receiver::new(packet_size)
    }
}

} // verus!
