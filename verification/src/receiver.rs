//! The receiving side of the stop-and-wait protocol.
//!
//! A [`Receiver`] owns the reassembly buffer and decides; it never touches
//! the channel. Its driver reports each datagram as an event and performs
//! the action that the receiver answers with.

use vstd::prelude::*;
use crate::chunk::{concat, lemma_concat_push, views};
use crate::error::TransferError;
use crate::frame::{
    ack, ack_unit, decode, index_value, is_terminal, unit_payload, PREAMBLE_SIZE,
};

verus! {

/// Where a receiver stands.
#[derive(Clone, Copy, Debug, PartialEq, Eq, Structural)]
pub enum ReceiverPhase {
    /// Waiting for the next datagram.
    Receiving,
    /// The terminal unit arrived: the stream is complete.
    Finished,
    /// The session was given up, and why.
    Failed(TransferError),
}

/// What the driver reports to a receiver.
#[derive(Debug, PartialEq, Eq)]
pub enum ReceiverEvent {
    /// A datagram arrived; these are its bytes.
    Datagram(Vec<u8>),
    /// The channel failed to receive or to send.
    ChannelFailed,
}

/// A [`ReceiverEvent`] as a plain value.
pub enum ReceiverEventView {
    Datagram(Seq<u8>),
    ChannelFailed,
}

impl View for ReceiverEvent {
    type V = ReceiverEventView;

    open spec fn view(&self) -> ReceiverEventView {
        match self {
            ReceiverEvent::Datagram(bytes) => ReceiverEventView::Datagram(bytes@),
            ReceiverEvent::ChannelFailed => ReceiverEventView::ChannelFailed,
        }
    }
}

/// What a receiver asks its driver to do.
#[derive(Debug, PartialEq, Eq)]
pub enum ReceiverAction {
    /// Send this acknowledgment unit to where the datagram came from, then
    /// receive again.
    Acknowledge(Vec<u8>),
    /// The datagram was turned away, for this reason. Send nothing and
    /// receive again.
    Discard(TransferError),
    /// Stop receiving: the stream is complete.
    Finish,
    /// Stop receiving: the session failed.
    Abort(TransferError),
}

/// A [`ReceiverAction`] as a plain value.
pub enum ReceiverActionView {
    Acknowledge(Seq<u8>),
    Discard(TransferError),
    Finish,
    Abort(TransferError),
}

impl View for ReceiverAction {
    type V = ReceiverActionView;

    open spec fn view(&self) -> ReceiverActionView {
        match self {
            ReceiverAction::Acknowledge(unit) => ReceiverActionView::Acknowledge(unit@),
            ReceiverAction::Discard(error) => ReceiverActionView::Discard(*error),
            ReceiverAction::Finish => ReceiverActionView::Finish,
            ReceiverAction::Abort(error) => ReceiverActionView::Abort(*error),
        }
    }
}

/// Whether a datagram carries a chunk that a receiver can place: it has a
/// payload behind its sequence index, and a buffer on this machine can reach
/// that index. These are the datagrams that a waiting receiver
/// acknowledges.
pub open spec fn is_data_unit(datagram: Seq<u8>) -> bool {
    datagram.len() > PREAMBLE_SIZE && index_value(datagram) < usize::MAX
}

/// The reassembly buffer with `payload` at position `index`.
///
/// A position that the buffer already has is overwritten where it is. A
/// position beyond its end makes it grow: the positions in between are
/// filled with empty placeholders.
pub open spec fn placed(buffer: Seq<Seq<u8>>, index: nat, payload: Seq<u8>) -> Seq<Seq<u8>> {
    if index < buffer.len() {
        buffer.update(index as int, payload)
    } else {
        (buffer + Seq::new((index - buffer.len()) as nat, |i: int| Seq::<u8>::empty())).push(
            payload,
        )
    }
}

/// A receiver as a mathematical value.
pub struct ReceiverModel {
    /// The reassembly buffer: one entry for each sequence index up to the
    /// largest seen, empty where nothing arrived.
    pub buffer: Seq<Seq<u8>>,
    /// Where the receiver stands.
    pub phase: ReceiverPhase,
}

impl ReceiverModel {
    /// The receiver before any datagram arrived.
    pub open spec fn initial() -> ReceiverModel {
        ReceiverModel { buffer: Seq::empty(), phase: ReceiverPhase::Receiving }
    }

    /// The stream put together: the buffer's entries joined in ascending
    /// order of their index.
    pub open spec fn stream(self) -> Seq<u8> {
        concat(self.buffer)
    }

    /// How a receiver that is waiting answers a datagram.
    ///
    /// An empty datagram and a bare sequence index end the transmission. A
    /// datagram too short to hold a sequence index, and one whose index no
    /// buffer can reach, are turned away. Every other datagram is a data
    /// unit and is acknowledged.
    pub open spec fn verdict(datagram: Seq<u8>) -> ReceiverActionView {
        if is_terminal(datagram) {
            ReceiverActionView::Finish
        } else if datagram.len() < PREAMBLE_SIZE {
            ReceiverActionView::Discard(
                TransferError::MalformedUnit { length: datagram.len() as usize },
            )
        } else if index_value(datagram) >= usize::MAX {
            ReceiverActionView::Discard(
                TransferError::IndexOutOfRange { sequence_index: index_value(datagram) as u64 },
            )
        } else {
            ReceiverActionView::Acknowledge(ack_unit())
        }
    }

    /// What the receiver answers to an event.
    pub open spec fn reaction(self, event: ReceiverEventView) -> ReceiverActionView {
        match self.phase {
            ReceiverPhase::Receiving => match event {
                ReceiverEventView::Datagram(datagram) => Self::verdict(datagram),
                ReceiverEventView::ChannelFailed => ReceiverActionView::Abort(
                    TransferError::ChannelError,
                ),
            },
            ReceiverPhase::Finished => ReceiverActionView::Finish,
            ReceiverPhase::Failed(error) => ReceiverActionView::Abort(error),
        }
    }

    /// The receiver after one event.
    ///
    /// While receiving, a datagram that is acknowledged is placed at its
    /// sequence index, a terminal unit finishes the session, a datagram
    /// that is turned away changes nothing, and a channel failure ends the
    /// session. A finished or failed receiver stays as it is.
    pub open spec fn after(self, event: ReceiverEventView) -> ReceiverModel {
        match self.phase {
            ReceiverPhase::Receiving => match event {
                ReceiverEventView::Datagram(datagram) => match Self::verdict(datagram) {
                    ReceiverActionView::Finish => ReceiverModel {
                        phase: ReceiverPhase::Finished,
                        ..self
                    },
                    ReceiverActionView::Acknowledge(_) => ReceiverModel {
                        buffer: placed(
                            self.buffer,
                            index_value(datagram),
                            unit_payload(datagram),
                        ),
                        ..self
                    },
                    _ => self,
                },
                ReceiverEventView::ChannelFailed => ReceiverModel {
                    phase: ReceiverPhase::Failed(TransferError::ChannelError),
                    ..self
                },
            },
            ReceiverPhase::Finished => self,
            ReceiverPhase::Failed(_) => self,
        }
    }

    /// The receiver after a run of events, taken in order.
    pub open spec fn after_all(self, events: Seq<ReceiverEventView>) -> ReceiverModel
        decreases events.len(),
    {
        if events.len() == 0 {
            self
        } else {
            self.after_all(events.drop_last()).after(events.last())
        }
    }
}

/// How many entries of the buffer are not empty.
pub open spec fn populated_count(buffer: Seq<Seq<u8>>) -> nat
    decreases buffer.len(),
{
    if buffer.len() == 0 {
        0
    } else {
        populated_count(buffer.drop_last()) + if buffer.last().len() > 0 {
            1nat
        } else {
            0nat
        }
    }
}

/// Placing a payload leaves every other position as it was, fills what it
/// has to add with empty entries, and makes the buffer just long enough.
pub proof fn lemma_placed(buffer: Seq<Seq<u8>>, index: nat, payload: Seq<u8>)
    ensures
        placed(buffer, index, payload).len() == if index < buffer.len() {
            buffer.len()
        } else {
            index + 1
        },
        placed(buffer, index, payload)[index as int] == payload,
        forall|i: int|
            0 <= i < buffer.len() && i != index ==> #[trigger] placed(buffer, index, payload)[i]
                == buffer[i],
        forall|i: int|
            buffer.len() <= i < index ==> (#[trigger] placed(buffer, index, payload)[i]).len()
                == 0,
{
}

/// The arrival of each of the datagrams, in order, as a run of events.
pub open spec fn arrivals(datagrams: Seq<Seq<u8>>) -> Seq<ReceiverEventView> {
    Seq::new(datagrams.len(), |i: int| ReceiverEventView::Datagram(datagrams[i]))
}

/// The run of events in which event `i` happens twice in a row.
pub open spec fn with_repeat(events: Seq<ReceiverEventView>, i: int) -> Seq<ReceiverEventView>
    recommends
        0 <= i < events.len(),
{
    events.take(i + 1).push(events[i]) + events.skip(i + 1)
}

/// Taking in one run of events and then another is taking in both as one.
pub proof fn lemma_receiver_after_both(
    receiver: ReceiverModel,
    first: Seq<ReceiverEventView>,
    second: Seq<ReceiverEventView>,
)
    ensures
        receiver.after_all(first + second) == receiver.after_all(first).after_all(second),
    decreases second.len(),
{
    if second.len() > 0 {
        lemma_receiver_after_both(receiver, first, second.drop_last());
        assert((first + second).drop_last() =~= first + second.drop_last());
    }
}

/// Delivering a datagram again does not change what the receiver holds.
///
/// Any event that happens twice in a row leaves the receiver where the
/// first occurrence left it. A data unit that arrives again later, while
/// its position still holds its payload, changes nothing either: it is
/// written over itself, and no entry moves. Either way the receiver
/// acknowledges the data unit again.
pub proof fn lemma_redelivery(receiver: ReceiverModel, event: ReceiverEventView)
    ensures
        receiver.after(event).after(event) == receiver.after(event),
        event matches ReceiverEventView::Datagram(datagram) ==> (receiver.phase is Receiving
            && is_data_unit(datagram) ==> receiver.after(event).reaction(event)
            == ReceiverActionView::Acknowledge(ack_unit())),
        event matches ReceiverEventView::Datagram(datagram) && is_data_unit(datagram)
            && index_value(datagram) < receiver.buffer.len() && receiver.buffer[index_value(
            datagram,
        ) as int] == unit_payload(datagram) ==> receiver.after(event) == receiver,
{
    if let ReceiverEventView::Datagram(datagram) = event {
        let index = index_value(datagram);
        let payload = unit_payload(datagram);
        let once = placed(receiver.buffer, index, payload);
        assert(placed(once, index, payload) =~= once);
        if index < receiver.buffer.len() {
            assert(receiver.buffer.update(index as int, receiver.buffer[index as int])
                =~= receiver.buffer);
        }
    }
}

/// A run of events in which one event is repeated ends in the same
/// receiver, and so in the same stream, as the run without the repeat.
pub proof fn lemma_redelivery_in_run(
    receiver: ReceiverModel,
    events: Seq<ReceiverEventView>,
    i: int,
)
    requires
        0 <= i < events.len(),
    ensures
        receiver.after_all(with_repeat(events, i)) == receiver.after_all(events),
        receiver.after_all(with_repeat(events, i)).stream() == receiver.after_all(events).stream(),
{
    let head = events.take(i + 1);
    let tail = events.skip(i + 1);
    lemma_redelivery(receiver.after_all(head.drop_last()), events[i]);
    assert(head.push(events[i]).drop_last() =~= head);
    lemma_receiver_after_both(receiver, head.push(events[i]), tail);
    lemma_receiver_after_both(receiver, head, tail);
    assert(head + tail =~= events);
}

/// Every datagram that a waiting receiver acknowledges is in its buffer
/// afterwards, at the position that the datagram names, and every datagram
/// that changes the buffer is acknowledged.
pub proof fn lemma_acknowledged_is_placed(receiver: ReceiverModel, datagram: Seq<u8>)
    requires
        receiver.phase is Receiving,
    ensures
        receiver.reaction(ReceiverEventView::Datagram(datagram)) is Acknowledge <==> is_data_unit(
            datagram,
        ),
        is_data_unit(datagram) ==> receiver.reaction(ReceiverEventView::Datagram(datagram))
            == ReceiverActionView::Acknowledge(ack_unit()) && receiver.after(
            ReceiverEventView::Datagram(datagram),
        ).buffer[index_value(datagram) as int] == unit_payload(datagram),
        !is_data_unit(datagram) ==> receiver.after(ReceiverEventView::Datagram(datagram)).buffer
            == receiver.buffer,
{
}

/// A receiver stops on a terminal unit and on nothing else that arrives.
///
/// A waiting receiver is finished by a datagram exactly when that datagram
/// is empty or a bare sequence index, whatever the index and whatever the
/// buffer holds. Any other datagram, of any length and with any sequence
/// index, leaves it waiting. So after a run of datagrams the receiver is
/// finished if one of them was terminal and is still waiting if none was.
pub proof fn lemma_terminal_detection(
    receiver: ReceiverModel,
    datagram: Seq<u8>,
    datagrams: Seq<Seq<u8>>,
)
    requires
        receiver.phase is Receiving,
    ensures
        receiver.after(ReceiverEventView::Datagram(datagram)).phase is Finished <==> is_terminal(
            datagram,
        ),
        !is_terminal(datagram) ==> receiver.after(ReceiverEventView::Datagram(datagram)).phase
            is Receiving,
        receiver.after_all(arrivals(datagrams)).phase is Finished <==> exists|i: int|
            0 <= i < datagrams.len() && is_terminal(#[trigger] datagrams[i]),
        receiver.after_all(arrivals(datagrams)).phase is Finished || receiver.after_all(
            arrivals(datagrams),
        ).phase is Receiving,
    decreases datagrams.len(),
{
    if datagrams.len() > 0 {
        let earlier = datagrams.drop_last();
        lemma_terminal_detection(receiver, datagram, earlier);
        assert(arrivals(datagrams).drop_last() =~= arrivals(earlier));
        assert(arrivals(datagrams).last() == ReceiverEventView::Datagram(datagrams.last()));
        let before = receiver.after_all(arrivals(earlier));
        if before.phase is Finished {
            let i = choose|i: int| 0 <= i < earlier.len() && is_terminal(#[trigger] earlier[i]);
            assert(is_terminal(datagrams[i]));
        } else if is_terminal(datagrams.last()) {
            assert(is_terminal(datagrams[datagrams.len() - 1]));
        } else {
            assert forall|i: int| 0 <= i < datagrams.len() implies !is_terminal(
                #[trigger] datagrams[i],
            ) by {
                if i < earlier.len() {
                    assert(earlier[i] == datagrams[i]);
                }
            }
        }
    }
}

/// The receiving side of one transfer.
pub struct Receiver {
    buffer: Vec<Vec<u8>>,
    packet_size: usize,
    phase: ReceiverPhase,
}

impl View for Receiver {
    type V = ReceiverModel;

    closed spec fn view(&self) -> ReceiverModel {
        ReceiverModel { buffer: views(self.buffer@), phase: self.phase }
    }
}

impl Receiver {
    /// What holds of every receiver that this module hands out.
    pub closed spec fn wf(&self) -> bool {
        self.packet_size + PREAMBLE_SIZE <= usize::MAX
    }

    /// The chunk size that the receiver was set up for.
    pub closed spec fn spec_packet_size(&self) -> usize {
        self.packet_size
    }

    /// Sets up a session that expects chunks of at most `packet_size` bytes.
    pub fn new(packet_size: usize) -> (receiver: Receiver)
        requires
            packet_size + PREAMBLE_SIZE <= usize::MAX,
        ensures
            receiver.wf(),
            receiver@ == ReceiverModel::initial(),
            receiver.spec_packet_size() == packet_size,
    {
        let receiver = Receiver {
            buffer: Vec::new(),
            packet_size,
            phase: ReceiverPhase::Receiving,
        };
        assert(receiver@.buffer =~= Seq::empty());
        receiver
    }

    /// Where the receiver stands.
    pub fn phase(&self) -> (phase: ReceiverPhase)
        ensures
            phase == self@.phase,
    {
        self.phase
    }

    /// The chunk size that the receiver was set up for.
    pub fn packet_size(&self) -> (size: usize)
        ensures
            size == self.spec_packet_size(),
    {
        self.packet_size
    }

    /// The most bytes of a datagram that the driver needs to read: a
    /// sequence index and a full chunk.
    pub fn datagram_capacity(&self) -> (capacity: usize)
        requires
            self.wf(),
        ensures
            capacity == self.spec_packet_size() + PREAMBLE_SIZE,
    {
        self.packet_size + PREAMBLE_SIZE
    }

    /// How many entries the reassembly buffer has, placeholders included.
    pub fn entries(&self) -> (count: usize)
        ensures
            count == self@.buffer.len(),
    {
        self.buffer.len()
    }

    /// How many entries of the reassembly buffer hold a payload.
    pub fn populated(&self) -> (count: usize)
        ensures
            count == populated_count(self@.buffer),
    {
        let ghost parts = views(self.buffer@);
        let mut count: usize = 0;
        let mut i: usize = 0;
        while i < self.buffer.len()
            invariant
                i <= self.buffer.len(),
                parts == views(self.buffer@),
                count == populated_count(parts.take(i as int)),
                count <= i,
            decreases self.buffer.len() - i,
        {
            assert(parts.take(i + 1).drop_last() =~= parts.take(i as int));
            if self.buffer[i].len() > 0 {
                count = count + 1;
            }
            i = i + 1;
        }
        assert(parts.take(i as int) =~= parts);
        count
    }

    /// Takes in one event and says what to do about it.
    pub fn step(&mut self, event: ReceiverEvent) -> (action: ReceiverAction)
        requires
            old(self).wf(),
        ensures
            final(self).wf(),
            final(self).spec_packet_size() == old(self).spec_packet_size(),
            final(self)@ == old(self)@.after(event@),
            action@ == old(self)@.reaction(event@),
    {
        match self.phase {
            ReceiverPhase::Receiving => match event {
                ReceiverEvent::Datagram(datagram) => {
                    if datagram.len() == 0 || datagram.len() == PREAMBLE_SIZE {
                        self.phase = ReceiverPhase::Finished;
                        return ReceiverAction::Finish;
                    }
                    match decode(datagram.as_slice()) {
                        Err(error) => ReceiverAction::Discard(error),
                        Ok((sequence_index, payload)) => {
                            if sequence_index >= usize::MAX as u64 {
                                ReceiverAction::Discard(
                                    TransferError::IndexOutOfRange { sequence_index },
                                )
                            } else {
                                self.place(sequence_index as usize, payload);
                                ReceiverAction::Acknowledge(ack())
                            }
                        },
                    }
                },
                ReceiverEvent::ChannelFailed => {
                    self.phase = ReceiverPhase::Failed(TransferError::ChannelError);
                    ReceiverAction::Abort(TransferError::ChannelError)
                },
            },
            ReceiverPhase::Finished => ReceiverAction::Finish,
            ReceiverPhase::Failed(error) => ReceiverAction::Abort(error),
        }
    }

    /// Puts `payload` at position `index` of the reassembly buffer.
    fn place(&mut self, index: usize, payload: Vec<u8>)
        requires
            old(self).wf(),
            index < usize::MAX,
        ensures
            final(self).wf(),
            final(self).spec_packet_size() == old(self).spec_packet_size(),
            final(self)@.phase == old(self)@.phase,
            final(self)@.buffer == placed(old(self)@.buffer, index as nat, payload@),
    {
        let ghost before = views(self.buffer@);
        if index < self.buffer.len() {
            self.buffer.set(index, payload);
        } else {
            while self.buffer.len() < index
                invariant
                    before.len() <= self.buffer.len() <= index,
                    self.packet_size == old(self).packet_size,
                    self.phase == old(self).phase,
                    views(self.buffer@) == before + Seq::new(
                        (self.buffer.len() - before.len()) as nat,
                        |i: int| Seq::<u8>::empty(),
                    ),
                decreases index - self.buffer.len(),
            {
                let ghost shorter = views(self.buffer@);
                self.buffer.push(Vec::new());
                assert(views(self.buffer@) =~= shorter.push(Seq::<u8>::empty()));
            }
            self.buffer.push(payload);
        }
    }

    /// The stream put together from what the buffer holds.
    pub fn into_stream(self) -> (stream: Vec<u8>)
        ensures
            stream@ == self@.stream(),
    {
        let ghost parts = views(self.buffer@);
        let mut stream: Vec<u8> = Vec::new();
        let mut i: usize = 0;
        while i < self.buffer.len()
            invariant
                i <= self.buffer.len(),
                parts == views(self.buffer@),
                stream@ == concat(parts.take(i as int)),
            decreases self.buffer.len() - i,
        {
            stream.extend_from_slice(self.buffer[i].as_slice());
            proof {
                assert(parts.take(i + 1) =~= parts.take(i as int).push(parts[i as int]));
                lemma_concat_push(parts.take(i as int), parts[i as int]);
            }
            i = i + 1;
        }
        assert(parts.take(i as int) =~= parts);
        stream
    }
}

} // verus!
