//! Cutting a byte stream into chunks, and putting chunks back together.
//!
//! A stream is cut from left to right into chunks of `size` bytes; only the
//! last chunk may be shorter. Chunk `i` begins at byte `i * size`.

use vstd::prelude::*;
use vstd::slice::slice_to_vec;

verus! {

/// How many chunks of at most `size` bytes a stream of `len` bytes is cut
/// into: `len / size`, rounded up.
pub open spec fn chunk_count(len: nat, size: nat) -> nat {
    if len == 0 || size == 0 {
        0
    } else {
        ((len - 1) / (size as int) + 1) as nat
    }
}

/// Chunk `index` of `data`: the bytes from `index * size` up to the next
/// multiple of `size`, or up to the end of `data` if that comes first.
pub open spec fn chunk_at(data: Seq<u8>, size: nat, index: nat) -> Seq<u8>
    recommends
        index < chunk_count(data.len(), size),
{
    let start: int = (index * size) as int;
    let end: int = if start + size <= data.len() {
        start + size
    } else {
        data.len() as int
    };
    data.subrange(start, end)
}

/// All chunks of `data`, in order.
pub open spec fn chunks_of(data: Seq<u8>, size: nat) -> Seq<Seq<u8>> {
    Seq::new(chunk_count(data.len(), size), |i: int| chunk_at(data, size, i as nat))
}

/// What a vector of byte vectors holds: the view of each, in order.
pub open spec fn views(parts: Seq<Vec<u8>>) -> Seq<Seq<u8>> {
    Seq::new(parts.len(), |i: int| parts[i]@)
}

/// The parts joined end to end, in order.
pub open spec fn concat(parts: Seq<Seq<u8>>) -> Seq<u8>
    decreases parts.len(),
{
    if parts.len() == 0 {
        Seq::empty()
    } else {
        concat(parts.drop_last()) + parts.last()
    }
}

/// Joining after one more part is joining, then appending that part.
pub proof fn lemma_concat_push(parts: Seq<Seq<u8>>, part: Seq<u8>)
    ensures
        concat(parts.push(part)) == concat(parts) + part,
{
    assert(parts.push(part).drop_last() =~= parts);
}

/// An empty part adds nothing: joining with it is joining without it.
pub proof fn lemma_concat_skips_empty(parts: Seq<Seq<u8>>, i: int)
    requires
        0 <= i < parts.len(),
        parts[i].len() == 0,
    ensures
        concat(parts) == concat(parts.remove(i)),
    decreases parts.len(),
{
    if i == parts.len() - 1 {
        assert(parts.remove(i) =~= parts.drop_last());
        assert(concat(parts.drop_last()) + parts.last() =~= concat(parts.drop_last()));
    } else {
        lemma_concat_skips_empty(parts.drop_last(), i);
        assert(parts.remove(i).drop_last() =~= parts.drop_last().remove(i));
    }
}

/// Index `index` names a chunk exactly when byte `index * size` exists.
pub proof fn lemma_chunk_index(len: nat, size: nat, index: nat)
    requires
        size >= 1,
    ensures
        index < chunk_count(len, size) <==> index * size < len,
{
    if len > 0 {
        let q: int = (len - 1) / (size as int);
        assert(q * size <= len - 1 < q * size + size) by (nonlinear_arith)
            requires
                q == (len - 1) / (size as int),
                size >= 1,
                len >= 1,
        ;
        assert(index <= q <==> index * size <= len - 1) by (nonlinear_arith)
            requires
                q * size <= len - 1 < q * size + size,
                size >= 1,
        ;
    } else {
        assert(index * size >= 0) by (nonlinear_arith);
    }
}

/// A chunk begins inside the stream, is never empty and never longer than
/// `size`; all chunks but the last are exactly `size` long.
pub proof fn lemma_chunk_len(data: Seq<u8>, size: nat, index: nat)
    requires
        size >= 1,
        index < chunk_count(data.len(), size),
    ensures
        index * size < data.len(),
        1 <= chunk_at(data, size, index).len() <= size,
        index + 1 < chunk_count(data.len(), size) ==> chunk_at(data, size, index).len() == size,
        index + 1 == chunk_count(data.len(), size) ==> index * size + chunk_at(
            data,
            size,
            index,
        ).len() == data.len(),
{
    lemma_chunk_index(data.len(), size, index);
    lemma_chunk_index(data.len(), size, index + 1);
    assert((index + 1) * size == index * size + size) by (nonlinear_arith);
}

/// The first `k` chunks join to the first `k * size` bytes of the stream, or
/// to all of it once `k` chunks cover it.
pub proof fn lemma_concat_chunks_prefix(data: Seq<u8>, size: nat, k: nat)
    requires
        size >= 1,
        k <= chunk_count(data.len(), size),
    ensures
        concat(chunks_of(data, size).take(k as int)) == data.take(
            if k * size <= data.len() {
                (k * size) as int
            } else {
                data.len() as int
            },
        ),
    decreases k,
{
    let chunks = chunks_of(data, size);
    if k == 0 {
        assert(0 * size == 0) by (nonlinear_arith);
    } else {
        let j: nat = (k - 1) as nat;
        lemma_concat_chunks_prefix(data, size, j);
        lemma_chunk_len(data, size, j);
        assert(k * size == j * size + size) by (nonlinear_arith)
            requires
                k == j + 1,
        ;
        assert(chunks.take(k as int) =~= chunks.take(j as int).push(chunk_at(data, size, j)));
        lemma_concat_push(chunks.take(j as int), chunk_at(data, size, j));
    }
}

/// The chunks of a stream join back to the stream.
pub proof fn lemma_concat_chunks(data: Seq<u8>, size: nat)
    requires
        size >= 1,
    ensures
        concat(chunks_of(data, size)) == data,
{
    let chunks = chunks_of(data, size);
    let n: nat = chunk_count(data.len(), size);
    lemma_concat_chunks_prefix(data, size, n);
    lemma_chunk_index(data.len(), size, n);
    assert(chunks.take(n as int) =~= chunks);
}

/// How many chunks `split` cuts a stream of `len` bytes into.
pub fn count_chunks(len: usize, packet_size: usize) -> (count: usize)
    requires
        packet_size >= 1,
    ensures
        count == chunk_count(len as nat, packet_size as nat),
{
    if len == 0 {
        0
    } else {
        (len - 1) / packet_size + 1
    }
}

/// Cuts `data` into chunks of at most `packet_size` bytes, in order.
pub fn split(data: &[u8], packet_size: usize) -> (chunks: Vec<Vec<u8>>)
    requires
        packet_size >= 1,
    ensures
        views(chunks@) == chunks_of(data@, packet_size as nat),
{
    let ghost all = chunks_of(data@, packet_size as nat);
    let mut chunks: Vec<Vec<u8>> = Vec::new();
    let mut offset: usize = 0;
    proof {
        assert(0 * packet_size == 0) by (nonlinear_arith);
    }
    while offset < data.len()
        invariant
            packet_size >= 1,
            all == chunks_of(data@, packet_size as nat),
            offset <= data.len(),
            chunks.len() <= all.len(),
            offset < data.len() ==> offset == chunks.len() * packet_size,
            offset == data.len() ==> chunks.len() == all.len(),
            views(chunks@) == all.take(chunks.len() as int),
        decreases data.len() - offset,
    {
        let ghost k: nat = chunks.len() as nat;
        proof {
            lemma_chunk_index(data@.len(), packet_size as nat, k);
            lemma_chunk_len(data@, packet_size as nat, k);
            lemma_chunk_index(data@.len(), packet_size as nat, k + 1);
            assert((k + 1) * packet_size == k * packet_size + packet_size) by (nonlinear_arith);
        }
        let end: usize = if data.len() - offset <= packet_size {
            data.len()
        } else {
            offset + packet_size
        };
        let chunk: Vec<u8> = slice_to_vec(&data[offset..end]);
        chunks.push(chunk);
        offset = end;
    }
    chunks
}

} // verus!
