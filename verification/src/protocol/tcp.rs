//! A byte stream: the transport itself keeps order and loses nothing.

use vstd::prelude::*;
use crate::chunk::{chunks_of, split, views};
use crate::collector::{Collector, CollectorModel};

verus! {

/// File transfer over a byte stream.
pub struct Tcp {}

impl Tcp {
    /// The pieces of `file_data` in the order in which they are to be
    /// written to the stream: its chunks of at most `packet_size` bytes.
    pub fn send_file(file_data: Vec<u8>, packet_size: usize) -> (writes: Vec<Vec<u8>>)
        requires
            packet_size >= 1,
        ensures
            views(writes@) == chunks_of(file_data@, packet_size as nat),
    {
        split(file_data.as_slice(), packet_size)
    }

    /// Begins receiving a file that is read from the stream at most
    /// `packet_size` bytes at a time. The collector that comes back takes
    /// in what each read returns and stops at the first empty read.
    pub fn receive_file(packet_size: usize) -> (collector: Collector)
        ensures
            collector@ == CollectorModel::initial(),
            collector.spec_packet_size() == packet_size,
    {
        Collector::new(packet_size)
    }
}

} // verus!
