//! The wire format: sequence-numbered data units, the acknowledgment unit and
//! the terminal unit.
//!
//! A data unit is eight bytes of sequence index, most significant byte first,
//! followed by the chunk it carries.

use vstd::prelude::*;
use vstd::slice::slice_to_vec;
use crate::error::TransferError;

verus! {

/// Number of bytes that the sequence index takes at the head of a data unit.
pub const PREAMBLE_SIZE: usize = 8;

/// The eight bytes that spell `index`, most significant first.
pub open spec fn index_bytes(index: u64) -> Seq<u8> {
    seq![
        (index / 0x0100_0000_0000_0000) as u8,
        (index / 0x0001_0000_0000_0000 % 0x100) as u8,
        (index / 0x0000_0100_0000_0000 % 0x100) as u8,
        (index / 0x0000_0001_0000_0000 % 0x100) as u8,
        (index / 0x0000_0000_0100_0000 % 0x100) as u8,
        (index / 0x0000_0000_0001_0000 % 0x100) as u8,
        (index / 0x0000_0000_0000_0100 % 0x100) as u8,
        (index % 0x100) as u8,
    ]
}

/// The number that the first eight bytes of `bytes` spell, most significant
/// first.
pub open spec fn index_value(bytes: Seq<u8>) -> nat
    recommends
        bytes.len() >= PREAMBLE_SIZE,
{
    (bytes[0] as nat) * 0x0100_0000_0000_0000
        + (bytes[1] as nat) * 0x0001_0000_0000_0000
        + (bytes[2] as nat) * 0x0000_0100_0000_0000
        + (bytes[3] as nat) * 0x0000_0001_0000_0000
        + (bytes[4] as nat) * 0x0000_0000_0100_0000
        + (bytes[5] as nat) * 0x0000_0000_0001_0000
        + (bytes[6] as nat) * 0x0000_0000_0000_0100
        + (bytes[7] as nat)
}

/// The data unit that carries `chunk` under `index`.
pub open spec fn framed_unit(index: u64, chunk: Seq<u8>) -> Seq<u8> {
    index_bytes(index) + chunk
}

/// The chunk that a data unit carries: what follows its sequence index.
pub open spec fn unit_payload(framed: Seq<u8>) -> Seq<u8>
    recommends
        framed.len() >= PREAMBLE_SIZE,
{
    framed.skip(PREAMBLE_SIZE as int)
}

/// The acknowledgment unit: the four bytes `A C K` and a line feed.
pub open spec fn ack_unit() -> Seq<u8> {
    seq![0x41u8, 0x43u8, 0x4bu8, 0x0au8]
}

/// The datagram with which a sender closes a transfer: an empty one.
pub open spec fn terminal_unit() -> Seq<u8> {
    Seq::empty()
}

/// Whether a datagram ends the transmission: it is empty, or it is a bare
/// sequence index with no payload behind it, whatever that index is.
pub open spec fn is_terminal(datagram: Seq<u8>) -> bool {
    datagram.len() == 0 || datagram.len() == PREAMBLE_SIZE
}

/// Decoding what was encoded gives back the index and the chunk.
pub proof fn lemma_decode_encode(index: u64, chunk: Seq<u8>)
    ensures
        framed_unit(index, chunk).len() == PREAMBLE_SIZE + chunk.len(),
        index_value(framed_unit(index, chunk)) == index,
        unit_payload(framed_unit(index, chunk)) == chunk,
{
    assert(index == (index / 0x0100_0000_0000_0000) * 0x0100_0000_0000_0000
        + (index / 0x0001_0000_0000_0000 % 0x100) * 0x0001_0000_0000_0000
        + (index / 0x0000_0100_0000_0000 % 0x100) * 0x0000_0100_0000_0000
        + (index / 0x0000_0001_0000_0000 % 0x100) * 0x0000_0001_0000_0000
        + (index / 0x0000_0000_0100_0000 % 0x100) * 0x0000_0000_0100_0000
        + (index / 0x0000_0000_0001_0000 % 0x100) * 0x0000_0000_0001_0000
        + (index / 0x0000_0000_0000_0100 % 0x100) * 0x0000_0000_0000_0100
        + (index % 0x100)) by (bit_vector);
}

/// Encoding what was decoded gives back the datagram, and the index that a
/// datagram spells fits in 64 bits.
pub proof fn lemma_encode_decode(framed: Seq<u8>)
    requires
        framed.len() >= PREAMBLE_SIZE,
    ensures
        index_value(framed) <= u64::MAX,
        framed_unit(index_value(framed) as u64, unit_payload(framed)) == framed,
{
    let b0: u8 = framed[0];
    let b1: u8 = framed[1];
    let b2: u8 = framed[2];
    let b3: u8 = framed[3];
    let b4: u8 = framed[4];
    let b5: u8 = framed[5];
    let b6: u8 = framed[6];
    let b7: u8 = framed[7];
    let x: u64 = index_value(framed) as u64;
    assert(x / 0x0100_0000_0000_0000 == b0
        && x / 0x0001_0000_0000_0000 % 0x100 == b1
        && x / 0x0000_0100_0000_0000 % 0x100 == b2
        && x / 0x0000_0001_0000_0000 % 0x100 == b3
        && x / 0x0000_0000_0100_0000 % 0x100 == b4
        && x / 0x0000_0000_0001_0000 % 0x100 == b5
        && x / 0x0000_0000_0000_0100 % 0x100 == b6
        && x % 0x100 == b7) by (bit_vector)
        requires
            x == b0 * 0x0100_0000_0000_0000 + b1 * 0x0001_0000_0000_0000
                + b2 * 0x0000_0100_0000_0000 + b3 * 0x0000_0001_0000_0000
                + b4 * 0x0000_0000_0100_0000 + b5 * 0x0000_0000_0001_0000
                + b6 * 0x0000_0000_0000_0100 + b7,
    ;
}

/// Builds the data unit for one chunk.
pub fn encode(sequence_index: u64, chunk: &[u8]) -> (framed: Vec<u8>)
    requires
        chunk@.len() + PREAMBLE_SIZE <= usize::MAX,
    ensures
        framed@ == framed_unit(sequence_index, chunk@),
{
    let mut framed: Vec<u8> = Vec::with_capacity(PREAMBLE_SIZE + chunk.len());
    framed.push((sequence_index / 0x0100_0000_0000_0000) as u8);
    framed.push((sequence_index / 0x0001_0000_0000_0000 % 0x100) as u8);
    framed.push((sequence_index / 0x0000_0100_0000_0000 % 0x100) as u8);
    framed.push((sequence_index / 0x0000_0001_0000_0000 % 0x100) as u8);
    framed.push((sequence_index / 0x0000_0000_0100_0000 % 0x100) as u8);
    framed.push((sequence_index / 0x0000_0000_0001_0000 % 0x100) as u8);
    framed.push((sequence_index / 0x0000_0000_0000_0100 % 0x100) as u8);
    framed.push((sequence_index % 0x100) as u8);
    framed.extend_from_slice(chunk);
    framed
}

/// Takes a data unit apart into its sequence index and its payload.
///
/// A datagram shorter than the sequence index is turned away as
/// [`TransferError::MalformedUnit`]; every other datagram decodes.
pub fn decode(framed: &[u8]) -> (unit: Result<(u64, Vec<u8>), TransferError>)
    ensures
        framed@.len() < PREAMBLE_SIZE ==> unit == Err::<(u64, Vec<u8>), TransferError>(
            TransferError::MalformedUnit { length: framed@.len() as usize },
        ),
        framed@.len() >= PREAMBLE_SIZE ==> unit is Ok && unit->Ok_0.0 == index_value(framed@)
            && unit->Ok_0.1@ == unit_payload(framed@),
{
    if framed.len() < PREAMBLE_SIZE {
        return Err(TransferError::MalformedUnit { length: framed.len() });
    }
    let sequence_index: u64 = (framed[0] as u64) * 0x0100_0000_0000_0000
        + (framed[1] as u64) * 0x0001_0000_0000_0000
        + (framed[2] as u64) * 0x0000_0100_0000_0000
        + (framed[3] as u64) * 0x0000_0001_0000_0000
        + (framed[4] as u64) * 0x0000_0000_0100_0000
        + (framed[5] as u64) * 0x0000_0000_0001_0000
        + (framed[6] as u64) * 0x0000_0000_0000_0100
        + (framed[7] as u64);
    let payload: Vec<u8> = slice_to_vec(&framed[PREAMBLE_SIZE..framed.len()]);
    Ok((sequence_index, payload))
}

/// The acknowledgment unit, ready to send.
pub fn ack() -> (unit: Vec<u8>)
    ensures
        unit@ == ack_unit(),
{
    let mut unit: Vec<u8> = Vec::with_capacity(4);
    unit.push(0x41u8);
    unit.push(0x43u8);
    unit.push(0x4bu8);
    unit.push(0x0au8);
    unit
}

/// Whether a datagram is the acknowledgment unit, byte for byte.
pub fn is_ack(datagram: &[u8]) -> (yes: bool)
    ensures
        yes == (datagram@ == ack_unit()),
{
    let yes: bool = datagram.len() == 4 && datagram[0] == 0x41u8 && datagram[1] == 0x43u8
        && datagram[2] == 0x4bu8 && datagram[3] == 0x0au8;
    proof {
        if yes {
            assert(datagram@ =~= ack_unit());
        }
    }
    yes
}

} // verus!
