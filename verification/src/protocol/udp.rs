//! Plain datagrams: nothing is acknowledged, nothing is sent twice.

use vstd::prelude::*;
use crate::chunk::{chunks_of, split, views};
use crate::collector::{Collector, CollectorModel};

verus! {

/// File transfer over plain datagrams.
pub struct Udp {}

impl Udp {
    /// The datagrams that carry `file_data`, in the order in which they are
    /// to be sent: its chunks of at most `packet_size` bytes, and an empty
    /// datagram to say that the transmission is over.
    pub fn send_file(file_data: Vec<u8>, packet_size: usize) -> (datagrams: Vec<Vec<u8>>)
        requires
            packet_size >= 1,
        ensures
            views(datagrams@) == chunks_of(file_data@, packet_size as nat).push(Seq::empty()),
    {
        let mut datagrams: Vec<Vec<u8>> = split(file_data.as_slice(), packet_size);
        datagrams.push(Vec::new());
        datagrams
    }

    /// Begins receiving a file whose datagrams hold at most `packet_size`
    /// bytes. The collector that comes back takes each datagram in and
    /// stops at the first empty one.
    pub fn receive_file(packet_size: usize) -> (collector: Collector)
        ensures
            collector@ == CollectorModel::initial(),
            collector.spec_packet_size() == packet_size,
    {
        Collector::new(packet_size)
    }
}

} // verus!
