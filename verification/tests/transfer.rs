use arq_transfer::error::TransferError;
use arq_transfer::frame::{decode, encode};
use arq_transfer::protocol::guaranteed_udp::GuaranteedUdp;
use arq_transfer::receiver::{Receiver, ReceiverAction, ReceiverEvent, ReceiverPhase};
use arq_transfer::sender::{SenderAction, SenderEvent, SenderPhase};

/// What one run of a transfer over a scripted channel looked like.
struct Run {
    outcome: Result<(), TransferError>,
    receiver: Receiver,
    /// How often each chunk was transmitted, by index.
    transmissions: Vec<u32>,
    /// How often each chunk reached the receiver, by index.
    deliveries: Vec<u32>,
    terminal_transmissions: u32,
}

/// Drives a sender and a receiver against each other. `loses_unit` and
/// `loses_ack` say, for a chunk index and the number of its transmission
/// (from 1), whether the channel loses the data unit or its acknowledgment.
fn run_transfer(
    data: &[u8],
    packet_size: usize,
    loses_unit: &dyn Fn(u64, u32) -> bool,
    loses_ack: &dyn Fn(u64, u32) -> bool,
) -> Run {
    let mut sender = GuaranteedUdp::send_file(data.to_vec(), packet_size);
    let mut receiver = GuaranteedUdp::receive_file(packet_size);
    let total: usize = sender.chunk_total();
    let mut transmissions: Vec<u32> = vec![0; total];
    let mut deliveries: Vec<u32> = vec![0; total];
    let mut terminal_transmissions: u32 = 0;
    let mut action = sender.next_action();
    let outcome = loop {
        match action {
            SenderAction::Transmit(unit) => {
                assert!(unit.len() <= receiver.datagram_capacity());
                let (index, _) = decode(&unit).unwrap();
                let slot: usize = index as usize;
                assert_eq!(slot, sender.chunk_index());
                transmissions[slot] += 1;
                let nth: u32 = transmissions[slot];
                let event = if loses_unit(index, nth) {
                    SenderEvent::TimedOut
                } else {
                    deliveries[slot] += 1;
                    match receiver.step(ReceiverEvent::Datagram(unit)) {
                        ReceiverAction::Acknowledge(reply) => {
                            if loses_ack(index, nth) {
                                SenderEvent::TimedOut
                            } else {
                                SenderEvent::Reply(reply)
                            }
                        }
                        other => panic!("data unit was not acknowledged: {:?}", other),
                    }
                };
                action = sender.step(event);
            }
            SenderAction::Terminate(unit) => {
                terminal_transmissions += 1;
                assert_eq!(receiver.step(ReceiverEvent::Datagram(unit)), ReceiverAction::Finish);
                action = sender.step(SenderEvent::TerminalSent);
            }
            SenderAction::Complete => break Ok(()),
            SenderAction::Abort(error) => break Err(error),
        }
    };
    match outcome {
        Ok(()) => assert_eq!(sender.phase(), SenderPhase::Done),
        Err(error) => assert_eq!(sender.phase(), SenderPhase::Failed(error)),
    }
    Run { outcome, receiver, transmissions, deliveries, terminal_transmissions }
}

fn never(_index: u64, _nth: u32) -> bool {
    false
}

#[test]
fn lossless_transfer_of_256_bytes_in_chunks_of_64() {
    let stream: Vec<u8> = (0..=255u8).collect();
    let run = run_transfer(&stream, 64, &never, &never);
    assert_eq!(run.outcome, Ok(()));
    assert_eq!(run.transmissions, vec![1, 1, 1, 1]);
    assert_eq!(run.deliveries, vec![1, 1, 1, 1]);
    assert_eq!(run.terminal_transmissions, 1);
    assert_eq!(run.receiver.phase(), ReceiverPhase::Finished);
    assert_eq!(run.receiver.entries(), 4);
    assert_eq!(run.receiver.populated(), 4);
    assert_eq!(run.receiver.into_stream(), stream);
}

#[test]
fn lossless_transfer_sends_indices_zero_to_three() {
    let stream: Vec<u8> = (0..=255u8).collect();
    let mut sender = GuaranteedUdp::send_file(stream.clone(), 64);
    let mut action = sender.next_action();
    for index in 0..4u64 {
        let start: usize = index as usize * 64;
        assert_eq!(action, SenderAction::Transmit(encode(index, &stream[start..start + 64])));
        action = sender.step(SenderEvent::Reply(b"ACK\n".to_vec()));
    }
    assert_eq!(action, SenderAction::Terminate(vec![]));
    assert_eq!(sender.step(SenderEvent::TerminalSent), SenderAction::Complete);
}

#[test]
fn one_lost_ack_for_chunk_two_costs_one_retransmission() {
    let stream: Vec<u8> = (0..=255u8).collect();
    let loses_ack = |index: u64, nth: u32| index == 2 && nth == 1;
    let run = run_transfer(&stream, 64, &never, &loses_ack);
    assert_eq!(run.outcome, Ok(()));
    assert_eq!(run.transmissions, vec![1, 1, 2, 1]);
    assert_eq!(run.deliveries, vec![1, 1, 2, 1]);
    assert_eq!(run.terminal_transmissions, 1);
    assert_eq!(run.receiver.entries(), 4);
    assert_eq!(run.receiver.populated(), 4);
    assert_eq!(run.receiver.into_stream(), stream);
}

#[test]
fn one_lost_data_unit_costs_one_retransmission() {
    let stream: Vec<u8> = (0..=255u8).collect();
    let loses_unit = |index: u64, nth: u32| index == 1 && nth == 1;
    let run = run_transfer(&stream, 64, &loses_unit, &never);
    assert_eq!(run.outcome, Ok(()));
    assert_eq!(run.transmissions, vec![1, 2, 1, 1]);
    assert_eq!(run.deliveries, vec![1, 1, 1, 1]);
    assert_eq!(run.receiver.into_stream(), stream);
}

#[test]
fn every_ack_of_a_chunk_lost_fails_after_ten_transmissions() {
    let stream: Vec<u8> = (0..=255u8).collect();
    for k in 0..4u64 {
        let loses_ack = |index: u64, _nth: u32| index == k;
        let run = run_transfer(&stream, 64, &never, &loses_ack);
        assert_eq!(
            run.outcome,
            Err(TransferError::TransferTimedOut { chunk_index: k, attempts: 10 })
        );
        let slot: usize = k as usize;
        assert_eq!(run.transmissions[slot], 10);
        assert_eq!(run.deliveries[slot], 10);
        for earlier in 0..slot {
            assert_eq!(run.transmissions[earlier], 1);
        }
        for later in slot + 1..4 {
            assert_eq!(run.transmissions[later], 0);
        }
        assert_eq!(run.terminal_transmissions, 0);
        assert_eq!(run.receiver.phase(), ReceiverPhase::Receiving);
        assert_eq!(run.receiver.entries(), slot + 1);
        assert_eq!(run.receiver.into_stream(), stream[..(slot + 1) * 64].to_vec());
    }
}

#[test]
fn nine_losses_in_a_row_are_survived() {
    let stream: Vec<u8> = (0..200u8).collect();
    let loses_unit = |_index: u64, nth: u32| nth <= 4;
    let loses_ack = |_index: u64, nth: u32| nth <= 9;
    let run = run_transfer(&stream, 7, &loses_unit, &loses_ack);
    assert_eq!(run.outcome, Ok(()));
    assert!(run.transmissions.iter().all(|&n| n == 10));
    assert!(run.deliveries.iter().all(|&n| n == 6));
    assert_eq!(run.receiver.into_stream(), stream);
}

#[test]
fn round_trip_for_many_sizes() {
    let stream: Vec<u8> = (0..1000u32).map(|i| (i * 7 % 256) as u8).collect();
    for len in [0usize, 1, 2, 63, 64, 65, 127, 128, 129, 999, 1000] {
        for packet_size in [1usize, 2, 3, 64, 65, 1000, 5000] {
            let run = run_transfer(&stream[..len], packet_size, &never, &never);
            assert_eq!(run.outcome, Ok(()));
            let chunks: usize = (len + packet_size - 1) / packet_size;
            assert_eq!(run.transmissions, vec![1; chunks]);
            assert_eq!(run.terminal_transmissions, 1);
            assert_eq!(run.receiver.entries(), chunks);
            assert_eq!(run.receiver.phase(), ReceiverPhase::Finished);
            assert_eq!(run.receiver.into_stream(), stream[..len].to_vec());
        }
    }
}

#[test]
fn round_trip_with_scattered_losses() {
    let stream: Vec<u8> = (0..500u32).map(|i| (i * 13 % 256) as u8).collect();
    let loses_unit = |index: u64, nth: u32| (index + nth as u64) % 3 == 0 && nth < 4;
    let loses_ack = |index: u64, nth: u32| (index * 5 + nth as u64) % 4 == 1 && nth < 6;
    let run = run_transfer(&stream, 16, &loses_unit, &loses_ack);
    assert_eq!(run.outcome, Ok(()));
    assert!(run.transmissions.iter().all(|&n| (1..=10).contains(&n)));
    assert_eq!(run.receiver.into_stream(), stream);
}

#[test]
fn data_unit_delivered_twice_leaves_the_stream_as_it_was() {
    let stream: Vec<u8> = (0..=255u8).collect();
    let mut once = GuaranteedUdp::receive_file(64);
    let mut twice = GuaranteedUdp::receive_file(64);
    for index in 0..4u64 {
        let start: usize = index as usize * 64;
        let unit = encode(index, &stream[start..start + 64]);
        once.step(ReceiverEvent::Datagram(unit.clone()));
        twice.step(ReceiverEvent::Datagram(unit.clone()));
        twice.step(ReceiverEvent::Datagram(unit));
    }
    assert_eq!(twice.entries(), once.entries());
    assert_eq!(twice.into_stream(), stream);
    assert_eq!(once.into_stream(), stream);
}
