//! Receiving a stream that needs no reassembly.
//!
//! The plain datagram transport and the byte-stream transport deliver the
//! pieces of a stream in order. A [`Collector`] appends each piece to what
//! it has, and stops at the first empty one.

use vstd::prelude::*;
use crate::chunk::{chunks_of, concat, lemma_chunk_len, lemma_concat_chunks};

verus! {

/// A collector as a mathematical value.
pub struct CollectorModel {
    /// What was collected so far.
    pub received: Seq<u8>,
    /// Whether the collector still takes pieces.
    pub open: bool,
}

impl CollectorModel {
    /// A collector that has seen nothing yet.
    pub open spec fn initial() -> CollectorModel {
        CollectorModel { received: Seq::empty(), open: true }
    }

    /// The collector after one piece: an open collector appends a piece
    /// that has bytes and closes on an empty one; a closed collector stays
    /// as it is.
    pub open spec fn after(self, piece: Seq<u8>) -> CollectorModel {
        if !self.open {
            self
        } else if piece.len() == 0 {
            CollectorModel { open: false, ..self }
        } else {
            CollectorModel { received: self.received + piece, ..self }
        }
    }

    /// The collector after a run of pieces, taken in order.
    pub open spec fn after_all(self, pieces: Seq<Seq<u8>>) -> CollectorModel
        decreases pieces.len(),
    {
        if pieces.len() == 0 {
            self
        } else {
            self.after_all(pieces.drop_last()).after(pieces.last())
        }
    }
}

/// A collector that is handed the chunks of a stream in order, and then an
/// empty piece, has collected the stream and is closed.
pub proof fn lemma_collects_chunks(data: Seq<u8>, size: nat)
    requires
        size >= 1,
    ensures
        CollectorModel::initial().after_all(chunks_of(data, size)) == (CollectorModel {
            received: data,
            open: true,
        }),
        CollectorModel::initial().after_all(chunks_of(data, size).push(Seq::empty()))
            == (CollectorModel { received: data, open: false }),
{
    let chunks = chunks_of(data, size);
    lemma_collects_parts(chunks);
    lemma_concat_chunks(data, size);
    assert forall|i: int| 0 <= i < chunks.len() implies (#[trigger] chunks[i]).len() > 0 by {
        lemma_chunk_len(data, size, i as nat);
    }
    assert(chunks.push(Seq::empty()).drop_last() =~= chunks);
}

/// A collector that is handed pieces, none of them empty, has collected
/// them joined in order.
proof fn lemma_collects_parts(parts: Seq<Seq<u8>>)
    ensures
        (forall|i: int| 0 <= i < parts.len() ==> (#[trigger] parts[i]).len() > 0)
            ==> CollectorModel::initial().after_all(parts) == (CollectorModel {
            received: concat(parts),
            open: true,
        }),
    decreases parts.len(),
{
    if parts.len() > 0 {
        lemma_collects_parts(parts.drop_last());
    }
}

/// The receiving side of a transfer over a transport that keeps order.
pub struct Collector {
    received: Vec<u8>,
    packet_size: usize,
    open: bool,
}

impl View for Collector {
    type V = CollectorModel;

    closed spec fn view(&self) -> CollectorModel {
        CollectorModel { received: self.received@, open: self.open }
    }
}

impl Collector {
    /// The size of the buffer that the collector was set up for.
    pub closed spec fn spec_packet_size(&self) -> usize {
        self.packet_size
    }

    /// Sets up a collector whose driver reads into a buffer of
    /// `packet_size` bytes.
    pub fn new(packet_size: usize) -> (collector: Collector)
        ensures
            collector@ == CollectorModel::initial(),
            collector.spec_packet_size() == packet_size,
    {
        Collector { received: Vec::new(), packet_size, open: true }
    }

    /// How many bytes the driver should be ready to read at once.
    pub fn packet_size(&self) -> (size: usize)
        ensures
            size == self.spec_packet_size(),
    {
        self.packet_size
    }

    /// Takes in what one read returned, and says whether to read again.
    pub fn accept(&mut self, piece: &[u8]) -> (more: bool)
        ensures
            final(self)@ == old(self)@.after(piece@),
            final(self).spec_packet_size() == old(self).spec_packet_size(),
            more == final(self)@.open,
    {
        if self.open {
            if piece.len() == 0 {
                self.open = false;
            } else {
                let ghost before = self.received@;
                self.received.extend_from_slice(piece);
                assert(self.received@ =~= before + piece@);
            }
        }
        self.open
    }

    /// What was collected.
    pub fn into_stream(self) -> (stream: Vec<u8>)
        ensures
            stream@ == self@.received,
    {
        self.received
    }
}

} // verus!
