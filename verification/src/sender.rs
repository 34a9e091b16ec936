//! The sending side of the stop-and-wait protocol.
//!
//! A [`Sender`] owns the stream and decides; it never touches the channel.
//! Its driver asks for the next action, performs it, and reports the outcome
//! as an event. At most one data unit is in flight at any time.

use vstd::prelude::*;
use crate::chunk::{chunk_at, chunk_count, count_chunks, lemma_chunk_index, lemma_chunk_len};
use crate::config::ArqConfig;
use crate::error::TransferError;
use crate::frame::{
    ack_unit, encode, framed_unit, index_value, is_ack, is_terminal, lemma_decode_encode,
    terminal_unit, unit_payload, PREAMBLE_SIZE,
};

verus! {

/// Where a sender stands.
#[derive(Clone, Copy, Debug, PartialEq, Eq, Structural)]
pub enum SenderPhase {
    /// A chunk is in flight or about to be transmitted.
    Sending,
    /// Every chunk is acknowledged; the terminal unit is still to go out.
    Closing,
    /// The terminal unit went out: the transfer succeeded.
    Done,
    /// The transfer failed, and why.
    Failed(TransferError),
}

/// What the driver reports back to a sender.
#[derive(Debug, PartialEq, Eq)]
pub enum SenderEvent {
    /// A datagram arrived while the sender waited for an acknowledgment.
    Reply(Vec<u8>),
    /// The wait for an acknowledgment ended with no datagram.
    TimedOut,
    /// The terminal unit was handed to the channel.
    TerminalSent,
    /// The channel failed to send or to receive.
    ChannelFailed,
}

/// A [`SenderEvent`] as a plain value.
pub enum SenderEventView {
    Reply(Seq<u8>),
    TimedOut,
    TerminalSent,
    ChannelFailed,
}

impl View for SenderEvent {
    type V = SenderEventView;

    open spec fn view(&self) -> SenderEventView {
        match self {
            SenderEvent::Reply(bytes) => SenderEventView::Reply(bytes@),
            SenderEvent::TimedOut => SenderEventView::TimedOut,
            SenderEvent::TerminalSent => SenderEventView::TerminalSent,
            SenderEvent::ChannelFailed => SenderEventView::ChannelFailed,
        }
    }
}

impl SenderEventView {
    /// Whether the event is the arrival of the acknowledgment unit.
    pub open spec fn is_ack(self) -> bool {
        self matches SenderEventView::Reply(bytes) && bytes == ack_unit()
    }

    /// Whether the event ends a wait without an acknowledgment: the wait
    /// timed out, or some other datagram arrived.
    pub open spec fn is_miss(self) -> bool {
        self is TimedOut || (self matches SenderEventView::Reply(bytes) && bytes != ack_unit())
    }
}

/// What a sender asks its driver to do.
#[derive(Debug, PartialEq, Eq)]
pub enum SenderAction {
    /// Send this data unit, then wait for one datagram, no longer than the
    /// acknowledgment timeout, and report what came of it.
    Transmit(Vec<u8>),
    /// Send this terminal unit, wait for nothing, and report that it went
    /// out.
    Terminate(Vec<u8>),
    /// Stop: the transfer succeeded.
    Complete,
    /// Stop: the transfer failed.
    Abort(TransferError),
}

/// A [`SenderAction`] as a plain value.
pub enum SenderActionView {
    Transmit(Seq<u8>),
    Terminate(Seq<u8>),
    Complete,
    Abort(TransferError),
}

impl View for SenderAction {
    type V = SenderActionView;

    open spec fn view(&self) -> SenderActionView {
        match self {
            SenderAction::Transmit(unit) => SenderActionView::Transmit(unit@),
            SenderAction::Terminate(unit) => SenderActionView::Terminate(unit@),
            SenderAction::Complete => SenderActionView::Complete,
            SenderAction::Abort(error) => SenderActionView::Abort(*error),
        }
    }
}

/// A sender as a mathematical value.
pub struct SenderModel {
    /// The stream to transfer.
    pub data: Seq<u8>,
    /// The most bytes that one chunk holds.
    pub packet_size: nat,
    /// Transmissions allowed for one chunk.
    pub max_attempts: nat,
    /// How many chunks are acknowledged, which is the index of the chunk in
    /// flight.
    pub index: nat,
    /// How many transmissions of the chunk in flight went unacknowledged.
    pub attempts: nat,
    /// Where the sender stands.
    pub phase: SenderPhase,
}

impl SenderModel {
    /// How many chunks the stream is cut into.
    pub open spec fn chunk_total(self) -> nat {
        chunk_count(self.data.len(), self.packet_size)
    }

    /// What holds of every sender that `initial` and `after` produce.
    ///
    /// The chunk index stays within the stream and the attempts within the
    /// budget. A sender is closing or done only when every chunk is
    /// acknowledged. A sender that timed out names the chunk that was in
    /// flight and has spent the whole budget on it.
    pub open spec fn wf(self) -> bool {
        &&& self.packet_size >= 1
        &&& self.chunk_total() <= u64::MAX
        &&& self.max_attempts <= u32::MAX
        &&& self.index <= self.chunk_total()
        &&& self.attempts <= self.max_attempts
        &&& match self.phase {
            SenderPhase::Sending => self.index < self.chunk_total() && self.attempts
                < self.max_attempts,
            SenderPhase::Closing => self.index == self.chunk_total(),
            SenderPhase::Done => self.index == self.chunk_total(),
            SenderPhase::Failed(error) => match error {
                TransferError::TransferTimedOut { chunk_index, attempts } => {
                    &&& self.index < self.chunk_total()
                    &&& chunk_index == self.index
                    &&& attempts == self.attempts
                    &&& self.attempts == self.max_attempts
                },
                TransferError::ChannelError => true,
                _ => false,
            },
        }
    }

    /// The sender before anything was transmitted.
    ///
    /// With nothing to send it goes straight to closing. With no attempt
    /// allowed it has failed on the first chunk before transmitting it.
    pub open spec fn initial(data: Seq<u8>, packet_size: nat, max_attempts: nat) -> SenderModel {
        let phase = if chunk_count(data.len(), packet_size) == 0 {
            SenderPhase::Closing
        } else if max_attempts == 0 {
            SenderPhase::Failed(TransferError::TransferTimedOut { chunk_index: 0, attempts: 0 })
        } else {
            SenderPhase::Sending
        };
        SenderModel { data, packet_size, max_attempts, index: 0, attempts: 0, phase }
    }

    /// The data unit of the chunk in flight.
    pub open spec fn unit_in_flight(self) -> Seq<u8>
        recommends
            self.index < self.chunk_total(),
    {
        framed_unit(self.index as u64, chunk_at(self.data, self.packet_size, self.index))
    }

    /// What the driver is to do next.
    pub open spec fn action(self) -> SenderActionView {
        match self.phase {
            SenderPhase::Sending => SenderActionView::Transmit(self.unit_in_flight()),
            SenderPhase::Closing => SenderActionView::Terminate(terminal_unit()),
            SenderPhase::Done => SenderActionView::Complete,
            SenderPhase::Failed(error) => SenderActionView::Abort(error),
        }
    }

    /// The sender once the chunk in flight is acknowledged.
    pub open spec fn advanced(self) -> SenderModel {
        SenderModel {
            index: self.index + 1,
            attempts: 0,
            phase: if self.index + 1 < self.chunk_total() {
                SenderPhase::Sending
            } else {
                SenderPhase::Closing
            },
            ..self
        }
    }

    /// The sender once a transmission of the chunk in flight went
    /// unacknowledged: it will transmit again, unless the budget is spent.
    pub open spec fn missed(self) -> SenderModel {
        SenderModel {
            attempts: self.attempts + 1,
            phase: if self.attempts + 1 >= self.max_attempts {
                SenderPhase::Failed(
                    TransferError::TransferTimedOut {
                        chunk_index: self.index as u64,
                        attempts: (self.attempts + 1) as u32,
                    },
                )
            } else {
                SenderPhase::Sending
            },
            ..self
        }
    }

    /// The sender after one event.
    ///
    /// While sending, the acknowledgment unit moves on to the next chunk, a
    /// timeout or any other datagram counts as a failed attempt, and a
    /// channel failure ends the transfer. While closing, only the report
    /// that the terminal unit went out, or a channel failure, changes
    /// anything. A finished or failed sender stays as it is.
    pub open spec fn after(self, event: SenderEventView) -> SenderModel {
        match self.phase {
            SenderPhase::Sending => match event {
                SenderEventView::Reply(bytes) => if bytes == ack_unit() {
                    self.advanced()
                } else {
                    self.missed()
                },
                SenderEventView::TimedOut => self.missed(),
                SenderEventView::TerminalSent => self,
                SenderEventView::ChannelFailed => SenderModel {
                    phase: SenderPhase::Failed(TransferError::ChannelError),
                    ..self
                },
            },
            SenderPhase::Closing => match event {
                SenderEventView::TerminalSent => SenderModel { phase: SenderPhase::Done, ..self },
                SenderEventView::ChannelFailed => SenderModel {
                    phase: SenderPhase::Failed(TransferError::ChannelError),
                    ..self
                },
                _ => self,
            },
            SenderPhase::Done => self,
            SenderPhase::Failed(_) => self,
        }
    }

    /// The sender after a run of events, taken in order.
    pub open spec fn after_all(self, events: Seq<SenderEventView>) -> SenderModel
        decreases events.len(),
    {
        if events.len() == 0 {
            self
        } else {
            self.after_all(events.drop_last()).after(events.last())
        }
    }
}

/// How many of the events are arrivals of the acknowledgment unit.
pub open spec fn count_acks(events: Seq<SenderEventView>) -> nat
    decreases events.len(),
{
    if events.len() == 0 {
        0
    } else {
        count_acks(events.drop_last()) + if events.last().is_ack() {
            1nat
        } else {
            0nat
        }
    }
}

/// Every step keeps a sender well-formed, and so does every run of steps.
pub proof fn lemma_sender_stays_wf(sender: SenderModel, events: Seq<SenderEventView>)
    requires
        sender.wf(),
    ensures
        sender.after_all(events).wf(),
        sender.after_all(events).data == sender.data,
        sender.after_all(events).packet_size == sender.packet_size,
        sender.after_all(events).max_attempts == sender.max_attempts,
    decreases events.len(),
{
    if events.len() > 0 {
        lemma_sender_stays_wf(sender, events.drop_last());
    }
}

/// A new sender is well-formed.
pub proof fn lemma_sender_initial_wf(data: Seq<u8>, packet_size: nat, max_attempts: nat)
    requires
        packet_size >= 1,
        data.len() <= u64::MAX,
        max_attempts <= u32::MAX,
    ensures
        SenderModel::initial(data, packet_size, max_attempts).wf(),
{
    lemma_chunk_index(data.len(), packet_size, data.len());
    assert(data.len() * packet_size >= data.len()) by (nonlinear_arith)
        requires
            packet_size >= 1,
    ;
}

/// The data unit that a sender transmits carries the index of the chunk in
/// flight and that chunk, which is never empty: no receiver takes it for a
/// terminal unit.
pub proof fn lemma_unit_in_flight(sender: SenderModel)
    requires
        sender.wf(),
        sender.phase is Sending,
    ensures
        sender.unit_in_flight().len() > PREAMBLE_SIZE,
        sender.unit_in_flight().len() <= PREAMBLE_SIZE + sender.packet_size,
        !is_terminal(sender.unit_in_flight()),
        index_value(sender.unit_in_flight()) == sender.index,
        unit_payload(sender.unit_in_flight()) == chunk_at(
            sender.data,
            sender.packet_size,
            sender.index,
        ),
{
    lemma_chunk_len(sender.data, sender.packet_size, sender.index);
    lemma_decode_encode(
        sender.index as u64,
        chunk_at(sender.data, sender.packet_size, sender.index),
    );
}

/// An acknowledgment moves a sender on by exactly one chunk, and nothing else
/// moves it.
///
/// While a chunk is in flight, the acknowledgment unit always takes the
/// sender to the next chunk with a fresh retry budget. No other event, and no
/// event in any other phase, changes the chunk index. Over a run of events
/// the index therefore never goes back and never grows by more than the
/// number of acknowledgments in the run: an acknowledgment that arrives
/// twice is two replies, each taken for the chunk in flight when it is
/// read, and no single reply skips a chunk.
pub proof fn lemma_one_chunk_per_ack(
    sender: SenderModel,
    event: SenderEventView,
    events: Seq<SenderEventView>,
)
    ensures
        sender.phase is Sending && event.is_ack() ==> sender.after(event).index == sender.index + 1
            && sender.after(event).attempts == 0 && !(sender.after(event).phase is Failed),
        !(sender.phase is Sending && event.is_ack()) ==> sender.after(event).index == sender.index,
        sender.index <= sender.after_all(events).index <= sender.index + count_acks(events),
{
    lemma_index_within_acks(sender, events);
}

/// Over a run of events the chunk index grows by no more than the number of
/// acknowledgments in the run.
proof fn lemma_index_within_acks(sender: SenderModel, events: Seq<SenderEventView>)
    ensures
        sender.index <= sender.after_all(events).index <= sender.index + count_acks(events),
    decreases events.len(),
{
    if events.len() > 0 {
        lemma_index_within_acks(sender, events.drop_last());
    }
}

/// A transfer is reported as complete only when every chunk was acknowledged
/// and the terminal unit went out.
///
/// If a sender that started from the beginning is done after a run of
/// events, then its chunk index is the number of chunks, the run holds at
/// least that many acknowledgments, and it holds the report that the
/// terminal unit was sent.
pub proof fn lemma_complete_is_earned(
    data: Seq<u8>,
    packet_size: nat,
    max_attempts: nat,
    events: Seq<SenderEventView>,
)
    requires
        packet_size >= 1,
        data.len() <= u64::MAX,
        max_attempts <= u32::MAX,
        SenderModel::initial(data, packet_size, max_attempts).after_all(events).phase is Done,
    ensures
        SenderModel::initial(data, packet_size, max_attempts).after_all(events).index
            == chunk_count(data.len(), packet_size),
        count_acks(events) >= chunk_count(data.len(), packet_size),
        exists|i: int| 0 <= i < events.len() && #[trigger] events[i] is TerminalSent,
{
    let start = SenderModel::initial(data, packet_size, max_attempts);
    lemma_sender_initial_wf(data, packet_size, max_attempts);
    lemma_sender_stays_wf(start, events);
    lemma_index_within_acks(start, events);
    lemma_done_after_terminal(start, events);
}

/// A sender that was not done before a run of events and is done after it
/// was told in that run that the terminal unit went out.
proof fn lemma_done_after_terminal(sender: SenderModel, events: Seq<SenderEventView>)
    requires
        !(sender.phase is Done),
        sender.after_all(events).phase is Done,
    ensures
        exists|i: int| 0 <= i < events.len() && #[trigger] events[i] is TerminalSent,
    decreases events.len(),
{
    if events.len() > 0 {
        let earlier = events.drop_last();
        if sender.after_all(earlier).phase is Done {
            lemma_done_after_terminal(sender, earlier);
            let i = choose|i: int| 0 <= i < earlier.len() && #[trigger] earlier[i] is TerminalSent;
            assert(events[i] is TerminalSent);
        } else {
            assert(events[events.len() - 1] is TerminalSent);
        }
    }
}

/// A chunk is transmitted as often as the retry budget allows, no less and
/// no more, and then the transfer fails on that chunk.
///
/// Take a sender about to transmit a chunk for the first time, and a run of
/// replies none of which is the acknowledgment unit. Each reply answers one
/// transmission. While the run is shorter than the budget the sender still
/// asks for the same data unit, unchanged. When the run is as long as the
/// budget the sender has failed with `TransferTimedOut` for that chunk, after
/// that many attempts.
pub proof fn lemma_retry_ceiling(sender: SenderModel, misses: Seq<SenderEventView>)
    requires
        sender.wf(),
        sender.phase is Sending,
        sender.attempts == 0,
        misses.len() <= sender.max_attempts,
        forall|i: int| 0 <= i < misses.len() ==> (#[trigger] misses[i]).is_miss(),
    ensures
        sender.after_all(misses).index == sender.index,
        sender.after_all(misses).attempts == misses.len(),
        misses.len() < sender.max_attempts ==> sender.after_all(misses).phase is Sending
            && sender.after_all(misses).action() == sender.action(),
        misses.len() == sender.max_attempts ==> sender.after_all(misses).phase
            == SenderPhase::Failed(
            TransferError::TransferTimedOut {
                chunk_index: sender.index as u64,
                attempts: sender.max_attempts as u32,
            },
        ) && sender.after_all(misses).action() == SenderActionView::Abort(
            TransferError::TransferTimedOut {
                chunk_index: sender.index as u64,
                attempts: sender.max_attempts as u32,
            },
        ),
    decreases misses.len(),
{
    if misses.len() > 0 {
        let earlier = misses.drop_last();
        assert forall|i: int| 0 <= i < earlier.len() implies (#[trigger] earlier[i]).is_miss() by {
            assert(earlier[i] == misses[i]);
        }
        lemma_retry_ceiling(sender, earlier);
        lemma_sender_stays_wf(sender, earlier);
        let before = sender.after_all(earlier);
        assert(misses.last().is_miss());
        assert(sender.after_all(misses) == before.missed());
    }
}

/// A sender that has finished or failed takes no notice of further events.
pub proof fn lemma_sender_settled(sender: SenderModel, events: Seq<SenderEventView>)
    requires
        sender.phase is Done || sender.phase is Failed,
    ensures
        sender.after_all(events) == sender,
    decreases events.len(),
{
    if events.len() > 0 {
        lemma_sender_settled(sender, events.drop_last());
    }
}

/// The sending side of one transfer.
pub struct Sender {
    data: Vec<u8>,
    packet_size: usize,
    max_attempts: u32,
    index: usize,
    offset: usize,
    attempts: u32,
    phase: SenderPhase,
}

impl View for Sender {
    type V = SenderModel;

    closed spec fn view(&self) -> SenderModel {
        SenderModel {
            data: self.data@,
            packet_size: self.packet_size as nat,
            max_attempts: self.max_attempts as nat,
            index: self.index as nat,
            attempts: self.attempts as nat,
            phase: self.phase,
        }
    }
}

impl Sender {
    /// What holds of every sender that this module hands out.
    pub closed spec fn wf(&self) -> bool {
        &&& self@.wf()
        &&& self.data@.len() + PREAMBLE_SIZE <= usize::MAX
        &&& self.phase is Sending ==> self.offset == self.index * self.packet_size
    }

    /// A well-formed sender has a well-formed model.
    pub proof fn lemma_wf(&self)
        requires
            self.wf(),
        ensures
            self@.wf(),
    {
    }

    /// Sets up the transfer of `file_data` in chunks of at most `packet_size`
    /// bytes.
    ///
    /// The chunk size must be positive, and a data unit that holds the whole
    /// stream must have a length that the machine can express.
    pub fn new(file_data: Vec<u8>, packet_size: usize, config: ArqConfig) -> (sender: Sender)
        requires
            packet_size >= 1,
            file_data@.len() + PREAMBLE_SIZE <= usize::MAX,
        ensures
            sender.wf(),
            sender@ == SenderModel::initial(
                file_data@,
                packet_size as nat,
                config.max_attempts as nat,
            ),
    {
        let phase = if file_data.len() == 0 {
            SenderPhase::Closing
        } else if config.max_attempts == 0 {
            SenderPhase::Failed(TransferError::TransferTimedOut { chunk_index: 0, attempts: 0 })
        } else {
            SenderPhase::Sending
        };
        proof {
            lemma_chunk_index(file_data@.len(), packet_size as nat, 0);
            lemma_chunk_index(file_data@.len(), packet_size as nat, file_data@.len());
            assert(0 * packet_size == 0) by (nonlinear_arith);
            assert(file_data@.len() * packet_size >= file_data@.len()) by (nonlinear_arith)
                requires
                    packet_size >= 1,
            ;
        }
        Sender {
            data: file_data,
            packet_size,
            max_attempts: config.max_attempts,
            index: 0,
            offset: 0,
            attempts: 0,
            phase,
        }
    }

    /// Where the sender stands.
    pub fn phase(&self) -> (phase: SenderPhase)
        ensures
            phase == self@.phase,
    {
        self.phase
    }

    /// How many chunks are acknowledged so far.
    pub fn chunk_index(&self) -> (index: usize)
        ensures
            index == self@.index,
    {
        self.index
    }

    /// How many transmissions of the chunk in flight went unacknowledged.
    pub fn attempts(&self) -> (attempts: u32)
        ensures
            attempts == self@.attempts,
    {
        self.attempts
    }

    /// The most bytes that one chunk holds.
    pub fn packet_size(&self) -> (size: usize)
        ensures
            size == self@.packet_size,
    {
        self.packet_size
    }

    /// How often one chunk is transmitted before the transfer fails.
    pub fn max_attempts(&self) -> (budget: u32)
        ensures
            budget == self@.max_attempts,
    {
        self.max_attempts
    }

    /// How many chunks the stream is cut into.
    pub fn chunk_total(&self) -> (total: usize)
        requires
            self.wf(),
        ensures
            total == self@.chunk_total(),
    {
        count_chunks(self.data.len(), self.packet_size)
    }

    /// What the driver is to do next. Asking again changes nothing.
    pub fn next_action(&self) -> (action: SenderAction)
        requires
            self.wf(),
        ensures
            action@ == self@.action(),
    {
        match self.phase {
            SenderPhase::Sending => {
                proof {
                    lemma_chunk_len(self.data@, self.packet_size as nat, self.index as nat);
                }
                let end: usize = if self.data.len() - self.offset <= self.packet_size {
                    self.data.len()
                } else {
                    self.offset + self.packet_size
                };
                let chunk: &[u8] = &self.data.as_slice()[self.offset..end];
                SenderAction::Transmit(encode(self.index as u64, chunk))
            },
            SenderPhase::Closing => SenderAction::Terminate(Vec::new()),
            SenderPhase::Done => SenderAction::Complete,
            SenderPhase::Failed(error) => SenderAction::Abort(error),
        }
    }

    /// Takes in what came of the last action and says what to do next.
    pub fn step(&mut self, event: SenderEvent) -> (action: SenderAction)
        requires
            old(self).wf(),
        ensures
            final(self).wf(),
            final(self)@ == old(self)@.after(event@),
            action@ == final(self)@.action(),
    {
        match self.phase {
            SenderPhase::Sending => match event {
                SenderEvent::Reply(bytes) => {
                    if is_ack(bytes.as_slice()) {
                        self.advance();
                    } else {
                        self.miss();
                    }
                },
                SenderEvent::TimedOut => {
                    self.miss();
                },
                SenderEvent::TerminalSent => {},
                SenderEvent::ChannelFailed => {
                    self.phase = SenderPhase::Failed(TransferError::ChannelError);
                },
            },
            SenderPhase::Closing => match event {
                SenderEvent::TerminalSent => {
                    self.phase = SenderPhase::Done;
                },
                SenderEvent::ChannelFailed => {
                    self.phase = SenderPhase::Failed(TransferError::ChannelError);
                },
                _ => {},
            },
            SenderPhase::Done => {},
            SenderPhase::Failed(_) => {},
        }
        self.next_action()
    }

    /// Moves on to the chunk after the one in flight.
    fn advance(&mut self)
        requires
            old(self).wf(),
            old(self)@.phase is Sending,
        ensures
            final(self).wf(),
            final(self)@ == old(self)@.advanced(),
    {
        proof {
            lemma_chunk_len(self.data@, self.packet_size as nat, self.index as nat);
            lemma_chunk_index(self.data@.len(), self.packet_size as nat, (self.index + 1) as nat);
            assert((self.index + 1) * self.packet_size == self.index * self.packet_size
                + self.packet_size) by (nonlinear_arith);
        }
        if self.data.len() - self.offset <= self.packet_size {
            self.offset = self.data.len();
            self.phase = SenderPhase::Closing;
        } else {
            self.offset = self.offset + self.packet_size;
            self.phase = SenderPhase::Sending;
        }
        self.index = self.index + 1;
        self.attempts = 0;
    }

    /// Counts one transmission of the chunk in flight as unacknowledged.
    fn miss(&mut self)
        requires
            old(self).wf(),
            old(self)@.phase is Sending,
        ensures
            final(self).wf(),
            final(self)@ == old(self)@.missed(),
    {
        self.attempts = self.attempts + 1;
        if self.attempts >= self.max_attempts {
            self.phase = SenderPhase::Failed(
                TransferError::TransferTimedOut {
                    chunk_index: self.index as u64,
                    attempts: self.attempts,
                },
            );
        }
    }
}

} // verus!
