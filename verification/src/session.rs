//! A sender and a receiver joined by a channel, as a mathematical model.
//!
//! The channel carries one datagram at a time. It may lose a datagram; it
//! does not alter, repeat or reorder what it carries. Each exchange is one
//! action of the sender together with what the channel and the receiver
//! make of it.

use vstd::prelude::*;
use crate::chunk::{chunk_at, chunk_count, chunks_of, lemma_chunk_index, lemma_concat_chunks};
use crate::receiver::{placed, ReceiverActionView, ReceiverEventView, ReceiverModel};
use crate::sender::{
    lemma_sender_initial_wf, lemma_unit_in_flight, SenderActionView, SenderEventView, SenderModel,
    SenderPhase,
};

verus! {

/// What the channel does with one exchange.
pub enum Fate {
    /// The sender's datagram arrives, and so does the receiver's answer.
    Delivered,
    /// The sender's datagram is lost on the way.
    UnitLost,
    /// The sender's datagram arrives, but the receiver's answer is lost.
    ReplyLost,
}

impl Fate {
    /// Whether the channel loses a datagram in this exchange.
    pub open spec fn is_loss(self) -> bool {
        !(self is Delivered)
    }
}

/// Whether the run has `count` exchanges in a row, from position `first`
/// on, in each of which the channel loses something.
pub open spec fn losses_from(fates: Seq<Fate>, first: int, count: nat) -> bool {
    &&& 0 <= first
    &&& first + count <= fates.len()
    &&& forall|i: int| first <= i < first + count ==> (#[trigger] fates[i]).is_loss()
}

/// A sender and a receiver in the middle of a transfer.
pub struct Session {
    pub sender: SenderModel,
    pub receiver: ReceiverModel,
}

impl Session {
    /// Both sides before anything was transmitted.
    pub open spec fn start(data: Seq<u8>, packet_size: nat, max_attempts: nat) -> Session {
        Session {
            sender: SenderModel::initial(data, packet_size, max_attempts),
            receiver: ReceiverModel::initial(),
        }
    }

    /// The session after the sender's next action, given what the channel
    /// does with it.
    ///
    /// A data unit that arrives is handed to the receiver; if the receiver
    /// acknowledges it and the answer arrives too, the sender reads the
    /// acknowledgment, and otherwise the sender's wait times out. The
    /// terminal unit is handed to the receiver if it arrives, and the sender
    /// goes on without waiting. A sender that has stopped takes no action.
    pub open spec fn exchange(self, fate: Fate) -> Session {
        match self.sender.action() {
            SenderActionView::Transmit(unit) => {
                let arrival = ReceiverEventView::Datagram(unit);
                match fate {
                    Fate::UnitLost => Session {
                        sender: self.sender.after(SenderEventView::TimedOut),
                        ..self
                    },
                    Fate::ReplyLost => Session {
                        sender: self.sender.after(SenderEventView::TimedOut),
                        receiver: self.receiver.after(arrival),
                    },
                    Fate::Delivered => Session {
                        sender: self.sender.after(
                            match self.receiver.reaction(arrival) {
                                ReceiverActionView::Acknowledge(reply) => SenderEventView::Reply(
                                    reply,
                                ),
                                _ => SenderEventView::TimedOut,
                            },
                        ),
                        receiver: self.receiver.after(arrival),
                    },
                }
            },
            SenderActionView::Terminate(unit) => Session {
                sender: self.sender.after(SenderEventView::TerminalSent),
                receiver: if fate is UnitLost {
                    self.receiver
                } else {
                    self.receiver.after(ReceiverEventView::Datagram(unit))
                },
            },
            SenderActionView::Complete => self,
            SenderActionView::Abort(_) => self,
        }
    }

    /// The session after one exchange for each of the fates, in order.
    pub open spec fn run(self, fates: Seq<Fate>) -> Session
        decreases fates.len(),
    {
        if fates.len() == 0 {
            self
        } else {
            self.run(fates.drop_last()).exchange(fates.last())
        }
    }

    /// What holds of a session between exchanges, for a stream `data` cut
    /// into chunks of `packet_size` bytes.
    ///
    /// The receiver's buffer is a run of chunks of the stream from the first
    /// on, in order. It holds every chunk that the sender has had
    /// acknowledged and at most one more: the chunk in flight, once it has
    /// arrived. The receiver finishes only after the sender has begun to
    /// close.
    pub open spec fn in_step(self, data: Seq<u8>, packet_size: nat) -> bool {
        let chunks = chunks_of(data, packet_size);
        let held = self.receiver.buffer.len();
        &&& self.sender.wf()
        &&& self.sender.data == data
        &&& self.sender.packet_size == packet_size
        &&& data.len() <= usize::MAX
        &&& !(self.receiver.phase is Failed)
        &&& held <= chunks.len()
        &&& self.receiver.buffer == chunks.take(held as int)
        &&& match self.sender.phase {
            SenderPhase::Sending => self.receiver.phase is Receiving && (held == self.sender.index
                || held == self.sender.index + 1),
            SenderPhase::Closing => self.receiver.phase is Receiving && held == chunks.len(),
            SenderPhase::Done => held == chunks.len(),
            SenderPhase::Failed(_) => self.receiver.phase is Receiving,
        }
    }
}

/// The fates of a run in which nothing is lost.
pub open spec fn all_delivered(n: nat) -> Seq<Fate> {
    Seq::new(n, |i: int| Fate::Delivered)
}

/// One exchange keeps a session in step. What becomes of the sender in it
/// depends only on whether the channel loses something: a data unit that
/// arrives is always acknowledged.
proof fn lemma_exchange_in_step(session: Session, fate: Fate, data: Seq<u8>, packet_size: nat)
    requires
        session.in_step(data, packet_size),
    ensures
        session.exchange(fate).in_step(data, packet_size),
        session.sender.phase is Sending ==> session.exchange(fate).sender == if fate.is_loss() {
            session.sender.missed()
        } else {
            session.sender.advanced()
        },
        session.sender.phase is Closing ==> session.exchange(fate).sender.phase is Done,
        session.sender.phase is Done || session.sender.phase is Failed ==> session.exchange(fate)
            == session,
{
    let chunks = chunks_of(data, packet_size);
    if session.sender.phase is Sending {
        let k = session.sender.index;
        lemma_unit_in_flight(session.sender);
        lemma_chunk_index(data.len(), packet_size, data.len());
        assert(data.len() * packet_size >= data.len()) by (nonlinear_arith)
            requires
                packet_size >= 1,
        ;
        assert(placed(session.receiver.buffer, k, chunk_at(data, packet_size, k)) =~= chunks.take(
            k as int + 1,
        ));
    }
}

/// A run of exchanges keeps a session in step.
proof fn lemma_run_in_step(session: Session, fates: Seq<Fate>, data: Seq<u8>, packet_size: nat)
    requires
        session.in_step(data, packet_size),
    ensures
        session.run(fates).in_step(data, packet_size),
    decreases fates.len(),
{
    if fates.len() > 0 {
        lemma_run_in_step(session, fates.drop_last(), data, packet_size);
        lemma_exchange_in_step(session.run(fates.drop_last()), fates.last(), data, packet_size);
    }
}

/// A session is in step when it starts.
proof fn lemma_start_in_step(data: Seq<u8>, packet_size: nat, max_attempts: nat)
    requires
        packet_size >= 1,
        data.len() <= usize::MAX,
        max_attempts <= u32::MAX,
    ensures
        Session::start(data, packet_size, max_attempts).in_step(data, packet_size),
{
    lemma_sender_initial_wf(data, packet_size, max_attempts);
    assert(chunks_of(data, packet_size).take(0) =~= Seq::<Seq<u8>>::empty());
}

/// Whatever the channel loses, a transfer that the sender reports as
/// complete has put the whole stream, and nothing else, into the receiver's
/// buffer, and a receiver that has finished holds the whole stream.
///
/// At every moment the receiver holds only chunks of the stream, from the
/// first on and in their order: a chunk that is transmitted again because
/// its acknowledgment was lost is written over the copy that is already
/// there.
pub proof fn lemma_complete_means_intact(
    data: Seq<u8>,
    packet_size: nat,
    max_attempts: nat,
    fates: Seq<Fate>,
)
    requires
        packet_size >= 1,
        data.len() <= usize::MAX,
        max_attempts <= u32::MAX,
    ensures
        ({
            let end = Session::start(data, packet_size, max_attempts).run(fates);
            &&& end.sender.phase is Done ==> end.receiver.buffer == chunks_of(data, packet_size)
                && end.receiver.stream() == data
            &&& end.receiver.phase is Finished ==> end.receiver.buffer == chunks_of(
                data,
                packet_size,
            ) && end.receiver.stream() == data
            &&& end.receiver.buffer.len() <= chunk_count(data.len(), packet_size)
            &&& end.receiver.buffer == chunks_of(data, packet_size).take(
                end.receiver.buffer.len() as int,
            )
        }),
{
    let chunks = chunks_of(data, packet_size);
    lemma_start_in_step(data, packet_size, max_attempts);
    lemma_run_in_step(Session::start(data, packet_size, max_attempts), fates, data, packet_size);
    lemma_concat_chunks(data, packet_size);
    assert(chunks.take(chunks.len() as int) =~= chunks);
}

/// A transfer ends: after one exchange more than the retry budget times the
/// number of chunks, the sender has either completed the transfer or given
/// it up, whatever the channel lost.
pub proof fn lemma_transfer_ends(
    data: Seq<u8>,
    packet_size: nat,
    max_attempts: nat,
    fates: Seq<Fate>,
)
    requires
        packet_size >= 1,
        data.len() <= usize::MAX,
        max_attempts <= u32::MAX,
        fates.len() > chunk_count(data.len(), packet_size) * max_attempts,
    ensures
        ({
            let end = Session::start(data, packet_size, max_attempts).run(fates);
            end.sender.phase is Done || end.sender.phase is Failed
        }),
{
    lemma_progress(data, packet_size, max_attempts, fates);
    let end = Session::start(data, packet_size, max_attempts).run(fates);
    let total = chunk_count(data.len(), packet_size);
    if end.sender.phase is Sending {
        assert(end.sender.index * max_attempts + end.sender.attempts < total * max_attempts)
            by (nonlinear_arith)
            requires
                end.sender.index < total,
                end.sender.attempts < max_attempts,
        ;
    }
}

/// Every exchange uses up some of what a sender may spend: while it is
/// still at work, there were no more exchanges than the whole budget of the
/// chunks that are acknowledged and the failed attempts of the chunk in
/// flight.
proof fn lemma_progress(data: Seq<u8>, packet_size: nat, max_attempts: nat, fates: Seq<Fate>)
    requires
        packet_size >= 1,
        data.len() <= usize::MAX,
        max_attempts <= u32::MAX,
    ensures
        ({
            let end = Session::start(data, packet_size, max_attempts).run(fates);
            &&& end.in_step(data, packet_size)
            &&& end.sender.max_attempts == max_attempts
            &&& end.sender.phase is Sending ==> fates.len() <= end.sender.index * max_attempts
                + end.sender.attempts
            &&& end.sender.phase is Closing ==> fates.len() <= chunk_count(
                data.len(),
                packet_size,
            ) * max_attempts
        }),
    decreases fates.len(),
{
    let start = Session::start(data, packet_size, max_attempts);
    lemma_start_in_step(data, packet_size, max_attempts);
    assert(0 * max_attempts == 0) by (nonlinear_arith);
    assert(chunk_count(data.len(), packet_size) * max_attempts >= 0) by (nonlinear_arith);
    if fates.len() > 0 {
        let earlier = fates.drop_last();
        lemma_progress(data, packet_size, max_attempts, earlier);
        let before = start.run(earlier);
        lemma_exchange_in_step(before, fates.last(), data, packet_size);
        if before.sender.phase is Sending {
            let index = before.sender.index;
            assert((index + 1) * max_attempts == index * max_attempts + max_attempts)
                by (nonlinear_arith);
        }
    }
}

/// A sender gives a chunk up only after the channel has lost something in
/// as many exchanges in a row as the retry budget allows.
///
/// So over a channel that never loses that often in a row, no transfer
/// times out.
pub proof fn lemma_timeout_needs_losses(
    data: Seq<u8>,
    packet_size: nat,
    max_attempts: nat,
    fates: Seq<Fate>,
)
    requires
        packet_size >= 1,
        data.len() <= usize::MAX,
        max_attempts <= u32::MAX,
        Session::start(data, packet_size, max_attempts).run(fates).sender.phase is Failed,
    ensures
        exists|first: int| losses_from(fates, first, max_attempts),
{
    if max_attempts == 0 {
        assert(losses_from(fates, 0, max_attempts));
    } else {
        lemma_streak(data, packet_size, max_attempts, fates);
    }
}

/// The failed attempts that a sender has counted for the chunk in flight are
/// the latest exchanges, and in each of them something was lost.
proof fn lemma_streak(data: Seq<u8>, packet_size: nat, max_attempts: nat, fates: Seq<Fate>)
    requires
        packet_size >= 1,
        data.len() <= usize::MAX,
        1 <= max_attempts <= u32::MAX,
    ensures
        ({
            let end = Session::start(data, packet_size, max_attempts).run(fates);
            &&& end.in_step(data, packet_size)
            &&& end.sender.max_attempts == max_attempts
            &&& end.sender.phase is Sending ==> losses_from(
                fates,
                fates.len() - end.sender.attempts,
                end.sender.attempts,
            )
            &&& end.sender.phase is Failed ==> exists|first: int|
                losses_from(fates, first, max_attempts)
        }),
    decreases fates.len(),
{
    let start = Session::start(data, packet_size, max_attempts);
    lemma_start_in_step(data, packet_size, max_attempts);
    if fates.len() > 0 {
        let earlier = fates.drop_last();
        lemma_streak(data, packet_size, max_attempts, earlier);
        let before = start.run(earlier);
        lemma_exchange_in_step(before, fates.last(), data, packet_size);
        if before.sender.phase is Failed {
            let first = choose|first: int| losses_from(earlier, first, max_attempts);
            lemma_streak_goes_on(fates, first, max_attempts);
        } else if before.sender.phase is Sending {
            let failed = before.sender.attempts;
            lemma_streak_goes_on(fates, earlier.len() - failed, failed);
        }
    }
}

/// A streak of losses in a run is one in every longer run, and a loss right
/// after it makes it longer.
proof fn lemma_streak_goes_on(fates: Seq<Fate>, first: int, count: nat)
    requires
        fates.len() > 0,
        losses_from(fates.drop_last(), first, count),
    ensures
        losses_from(fates, first, count),
        first + count == fates.len() - 1 && fates.last().is_loss() ==> losses_from(
            fates,
            first,
            count + 1,
        ),
{
    assert forall|i: int| first <= i < first + count implies (#[trigger] fates[i]).is_loss() by {
        assert(fates.drop_last()[i] == fates[i]);
    }
}

/// Over a channel that loses nothing, the receiver ends up with exactly the
/// stream that the sender was given.
///
/// Every chunk is transmitted once and acknowledged: after `k` exchanges the
/// sender is at chunk `k` with no failed attempt, and the receiver holds the
/// first `k` chunks. One more exchange after the last chunk carries the
/// terminal unit; the sender is then done, the receiver has finished, and
/// its buffer holds the chunks of the stream, which join back to the stream.
pub proof fn lemma_round_trip(data: Seq<u8>, packet_size: nat, max_attempts: nat, k: nat)
    requires
        packet_size >= 1,
        data.len() <= usize::MAX,
        1 <= max_attempts <= u32::MAX,
        k <= chunk_count(data.len(), packet_size),
    ensures
        ({
            let total = chunk_count(data.len(), packet_size);
            let start = Session::start(data, packet_size, max_attempts);
            let midway = start.run(all_delivered(k));
            let end = start.run(all_delivered(total + 1));
            &&& midway.sender.index == k
            &&& midway.sender.attempts == 0
            &&& midway.sender.phase == if k < total {
                SenderPhase::Sending
            } else {
                SenderPhase::Closing
            }
            &&& midway.receiver.phase is Receiving
            &&& midway.receiver.buffer == chunks_of(data, packet_size).take(k as int)
            &&& end.sender.phase is Done
            &&& end.receiver.phase is Finished
            &&& end.receiver.buffer == chunks_of(data, packet_size)
            &&& end.receiver.stream() == data
        }),
{
    let total = chunk_count(data.len(), packet_size);
    let start = Session::start(data, packet_size, max_attempts);
    lemma_lossless_prefix(data, packet_size, max_attempts, k);
    lemma_lossless_prefix(data, packet_size, max_attempts, total);
    lemma_exchange_in_step(start.run(all_delivered(total)), Fate::Delivered, data, packet_size);
    assert(all_delivered(total + 1).drop_last() =~= all_delivered(total));
    assert(chunks_of(data, packet_size).take(total as int) =~= chunks_of(data, packet_size));
    lemma_concat_chunks(data, packet_size);
}

/// The first `k` exchanges of a run in which nothing is lost.
proof fn lemma_lossless_prefix(data: Seq<u8>, packet_size: nat, max_attempts: nat, k: nat)
    requires
        packet_size >= 1,
        data.len() <= usize::MAX,
        1 <= max_attempts <= u32::MAX,
        k <= chunk_count(data.len(), packet_size),
    ensures
        ({
            let total = chunk_count(data.len(), packet_size);
            let midway = Session::start(data, packet_size, max_attempts).run(all_delivered(k));
            &&& midway.in_step(data, packet_size)
            &&& midway.sender.max_attempts == max_attempts
            &&& midway.sender.index == k
            &&& midway.sender.attempts == 0
            &&& midway.sender.phase == if k < total {
                SenderPhase::Sending
            } else {
                SenderPhase::Closing
            }
            &&& midway.receiver.phase is Receiving
            &&& midway.receiver.buffer == chunks_of(data, packet_size).take(k as int)
        }),
    decreases k,
{
    let start = Session::start(data, packet_size, max_attempts);
    lemma_start_in_step(data, packet_size, max_attempts);
    if k > 0 {
        let j = (k - 1) as nat;
        lemma_lossless_prefix(data, packet_size, max_attempts, j);
        assert(all_delivered(k).drop_last() =~= all_delivered(j));
        lemma_exchange_in_step(start.run(all_delivered(j)), Fate::Delivered, data, packet_size);
    }
}

} // verus!
