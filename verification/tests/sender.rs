use arq_transfer::config::{ArqConfig, ACK_TIMEOUT_MILLIS, MAX_ATTEMPTS};
use arq_transfer::error::TransferError;
use arq_transfer::frame::{ack, encode};
use arq_transfer::protocol::guaranteed_udp::GuaranteedUdp;
use arq_transfer::sender::{Sender, SenderAction, SenderEvent, SenderPhase};

fn sample(len: usize) -> Vec<u8> {
    (0..len).map(|i| (i % 251) as u8).collect()
}

#[test]
fn default_config_is_ten_attempts_of_one_second() {
    let config = ArqConfig::default();
    assert_eq!(config.max_attempts, 10);
    assert_eq!(config.ack_timeout_millis, 1000);
    assert_eq!(MAX_ATTEMPTS, 10);
    assert_eq!(ACK_TIMEOUT_MILLIS, 1000);
}

#[test]
fn new_sender_is_about_to_transmit_the_first_chunk() {
    let data = sample(10);
    let sender = GuaranteedUdp::send_file(data.clone(), 4);
    assert_eq!(sender.phase(), SenderPhase::Sending);
    assert_eq!(sender.chunk_index(), 0);
    assert_eq!(sender.attempts(), 0);
    assert_eq!(sender.packet_size(), 4);
    assert_eq!(sender.max_attempts(), 10);
    assert_eq!(sender.chunk_total(), 3);
    assert_eq!(sender.next_action(), SenderAction::Transmit(encode(0, &data[0..4])));
}

#[test]
fn asking_for_the_next_action_changes_nothing() {
    let sender = GuaranteedUdp::send_file(sample(10), 4);
    let first = sender.next_action();
    let second = sender.next_action();
    assert_eq!(first, second);
    assert_eq!(sender.attempts(), 0);
}

#[test]
fn ack_moves_to_the_next_chunk() {
    let data = sample(10);
    let mut sender = GuaranteedUdp::send_file(data.clone(), 4);
    let action = sender.step(SenderEvent::Reply(ack()));
    assert_eq!(action, SenderAction::Transmit(encode(1, &data[4..8])));
    assert_eq!(sender.chunk_index(), 1);
    assert_eq!(sender.attempts(), 0);
    let action = sender.step(SenderEvent::Reply(ack()));
    assert_eq!(action, SenderAction::Transmit(encode(2, &data[8..10])));
    assert_eq!(sender.chunk_index(), 2);
}

#[test]
fn last_ack_leads_to_the_terminal_unit_and_then_to_completion() {
    let mut sender = GuaranteedUdp::send_file(sample(5), 5);
    assert_eq!(sender.chunk_total(), 1);
    let action = sender.step(SenderEvent::Reply(ack()));
    assert_eq!(action, SenderAction::Terminate(vec![]));
    assert_eq!(sender.phase(), SenderPhase::Closing);
    assert_eq!(sender.chunk_index(), 1);
    let action = sender.step(SenderEvent::TerminalSent);
    assert_eq!(action, SenderAction::Complete);
    assert_eq!(sender.phase(), SenderPhase::Done);
}

#[test]
fn empty_file_sends_only_the_terminal_unit() {
    let mut sender = GuaranteedUdp::send_file(vec![], 64);
    assert_eq!(sender.chunk_total(), 0);
    assert_eq!(sender.phase(), SenderPhase::Closing);
    assert_eq!(sender.next_action(), SenderAction::Terminate(vec![]));
    assert_eq!(sender.step(SenderEvent::TerminalSent), SenderAction::Complete);
}

#[test]
fn timeout_retransmits_the_same_unit_unchanged() {
    let data = sample(10);
    let mut sender = GuaranteedUdp::send_file(data.clone(), 4);
    let first = sender.next_action();
    let again = sender.step(SenderEvent::TimedOut);
    assert_eq!(again, first);
    assert_eq!(sender.chunk_index(), 0);
    assert_eq!(sender.attempts(), 1);
}

#[test]
fn other_datagram_counts_as_a_failed_attempt() {
    let mut sender = GuaranteedUdp::send_file(sample(10), 4);
    let first = sender.next_action();
    for reply in [b"NAK\n".to_vec(), b"ACK".to_vec(), b"ACK\n!".to_vec(), vec![]] {
        let before: u32 = sender.attempts();
        assert_eq!(sender.step(SenderEvent::Reply(reply)), first);
        assert_eq!(sender.attempts(), before + 1);
        assert_eq!(sender.chunk_index(), 0);
    }
}

#[test]
fn ack_after_failed_attempts_resets_the_budget() {
    let mut sender = GuaranteedUdp::send_file(sample(10), 4);
    for _ in 0..9 {
        sender.step(SenderEvent::TimedOut);
    }
    assert_eq!(sender.attempts(), 9);
    assert_eq!(sender.phase(), SenderPhase::Sending);
    sender.step(SenderEvent::Reply(ack()));
    assert_eq!(sender.chunk_index(), 1);
    assert_eq!(sender.attempts(), 0);
    assert_eq!(sender.phase(), SenderPhase::Sending);
}

#[test]
fn transfer_fails_after_exactly_ten_unacknowledged_transmissions() {
    let data = sample(300);
    let mut sender = GuaranteedUdp::send_file(data.clone(), 64);
    sender.step(SenderEvent::Reply(ack()));
    sender.step(SenderEvent::Reply(ack()));
    let unit = encode(2, &data[128..192]);
    let mut transmissions: u32 = 0;
    let mut action = sender.next_action();
    loop {
        match action {
            SenderAction::Transmit(sent) => {
                assert_eq!(sent, unit);
                transmissions += 1;
                action = sender.step(SenderEvent::TimedOut);
            }
            other => {
                action = other;
                break;
            }
        }
    }
    assert_eq!(transmissions, 10);
    let error = TransferError::TransferTimedOut { chunk_index: 2, attempts: 10 };
    assert_eq!(action, SenderAction::Abort(error));
    assert_eq!(sender.phase(), SenderPhase::Failed(error));
    assert_eq!(sender.chunk_index(), 2);
}

#[test]
fn ninth_failure_still_retransmits() {
    let mut sender = GuaranteedUdp::send_file(sample(10), 4);
    for attempt in 1..10u32 {
        let action = sender.step(SenderEvent::TimedOut);
        assert!(matches!(action, SenderAction::Transmit(_)));
        assert_eq!(sender.attempts(), attempt);
    }
    let action = sender.step(SenderEvent::TimedOut);
    assert!(matches!(action, SenderAction::Abort(_)));
}

#[test]
fn failed_sender_ignores_everything() {
    let mut sender = GuaranteedUdp::send_file(sample(10), 4);
    for _ in 0..10 {
        sender.step(SenderEvent::TimedOut);
    }
    let error = TransferError::TransferTimedOut { chunk_index: 0, attempts: 10 };
    for event in [
        SenderEvent::Reply(ack()),
        SenderEvent::TimedOut,
        SenderEvent::TerminalSent,
        SenderEvent::ChannelFailed,
    ] {
        assert_eq!(sender.step(event), SenderAction::Abort(error));
        assert_eq!(sender.phase(), SenderPhase::Failed(error));
        assert_eq!(sender.chunk_index(), 0);
        assert_eq!(sender.attempts(), 10);
    }
}

#[test]
fn finished_sender_ignores_everything() {
    let mut sender = GuaranteedUdp::send_file(sample(3), 4);
    sender.step(SenderEvent::Reply(ack()));
    sender.step(SenderEvent::TerminalSent);
    for event in [
        SenderEvent::Reply(ack()),
        SenderEvent::TimedOut,
        SenderEvent::TerminalSent,
        SenderEvent::ChannelFailed,
    ] {
        assert_eq!(sender.step(event), SenderAction::Complete);
        assert_eq!(sender.phase(), SenderPhase::Done);
    }
}

#[test]
fn channel_failure_while_sending_is_fatal() {
    let mut sender = GuaranteedUdp::send_file(sample(10), 4);
    let action = sender.step(SenderEvent::ChannelFailed);
    assert_eq!(action, SenderAction::Abort(TransferError::ChannelError));
    assert_eq!(sender.phase(), SenderPhase::Failed(TransferError::ChannelError));
}

#[test]
fn channel_failure_while_closing_is_fatal() {
    let mut sender = GuaranteedUdp::send_file(vec![], 4);
    let action = sender.step(SenderEvent::ChannelFailed);
    assert_eq!(action, SenderAction::Abort(TransferError::ChannelError));
}

#[test]
fn terminal_report_while_sending_is_ignored() {
    let mut sender = GuaranteedUdp::send_file(sample(10), 4);
    let first = sender.next_action();
    assert_eq!(sender.step(SenderEvent::TerminalSent), first);
    assert_eq!(sender.attempts(), 0);
    assert_eq!(sender.chunk_index(), 0);
}

#[test]
fn replies_while_closing_are_ignored() {
    let mut sender = GuaranteedUdp::send_file(vec![], 4);
    assert_eq!(sender.step(SenderEvent::Reply(ack())), SenderAction::Terminate(vec![]));
    assert_eq!(sender.step(SenderEvent::TimedOut), SenderAction::Terminate(vec![]));
    assert_eq!(sender.phase(), SenderPhase::Closing);
    assert_eq!(sender.chunk_index(), 0);
}

#[test]
fn repeated_ack_is_taken_for_the_chunk_then_in_flight() {
    let data = sample(12);
    let mut sender = GuaranteedUdp::send_file(data.clone(), 4);
    let action = sender.step(SenderEvent::Reply(ack()));
    assert_eq!(sender.chunk_index(), 1);
    assert_eq!(action, SenderAction::Transmit(encode(1, &data[4..8])));
    let action = sender.step(SenderEvent::Reply(ack()));
    assert_eq!(sender.chunk_index(), 2);
    assert_eq!(action, SenderAction::Transmit(encode(2, &data[8..12])));
}

#[test]
fn each_ack_advances_by_one_chunk_and_nothing_else_does() {
    let mut sender = GuaranteedUdp::send_file(sample(40), 4);
    let events = [
        SenderEvent::TimedOut,
        SenderEvent::Reply(ack()),
        SenderEvent::Reply(b"x".to_vec()),
        SenderEvent::TerminalSent,
        SenderEvent::Reply(ack()),
        SenderEvent::Reply(ack()),
        SenderEvent::TimedOut,
    ];
    let mut acks: usize = 0;
    for event in events {
        let before: usize = sender.chunk_index();
        let is_ack: bool = event == SenderEvent::Reply(ack());
        sender.step(event);
        if is_ack {
            acks += 1;
            assert_eq!(sender.chunk_index(), before + 1);
        } else {
            assert_eq!(sender.chunk_index(), before);
        }
    }
    assert_eq!(sender.chunk_index(), acks);
}

#[test]
fn custom_budget_is_obeyed() {
    let config = ArqConfig { max_attempts: 3, ack_timeout_millis: 5 };
    let mut sender = Sender::new(sample(10), 4, config);
    assert_eq!(sender.max_attempts(), 3);
    assert!(matches!(sender.step(SenderEvent::TimedOut), SenderAction::Transmit(_)));
    assert!(matches!(sender.step(SenderEvent::TimedOut), SenderAction::Transmit(_)));
    assert_eq!(
        sender.step(SenderEvent::TimedOut),
        SenderAction::Abort(TransferError::TransferTimedOut { chunk_index: 0, attempts: 3 })
    );
}

#[test]
fn budget_of_one_fails_on_the_first_miss() {
    let config = ArqConfig { max_attempts: 1, ack_timeout_millis: 1000 };
    let mut sender = Sender::new(sample(10), 4, config);
    assert!(matches!(sender.next_action(), SenderAction::Transmit(_)));
    assert_eq!(
        sender.step(SenderEvent::TimedOut),
        SenderAction::Abort(TransferError::TransferTimedOut { chunk_index: 0, attempts: 1 })
    );
}

#[test]
fn budget_of_zero_fails_before_transmitting() {
    let config = ArqConfig { max_attempts: 0, ack_timeout_millis: 1000 };
    let sender = Sender::new(sample(10), 4, config);
    let error = TransferError::TransferTimedOut { chunk_index: 0, attempts: 0 };
    assert_eq!(sender.phase(), SenderPhase::Failed(error));
    assert_eq!(sender.next_action(), SenderAction::Abort(error));
}

#[test]
fn budget_of_zero_still_closes_an_empty_file() {
    let config = ArqConfig { max_attempts: 0, ack_timeout_millis: 1000 };
    let sender = Sender::new(vec![], 4, config);
    assert_eq!(sender.next_action(), SenderAction::Terminate(vec![]));
}

#[test]
fn short_last_chunk_is_framed_with_its_own_length() {
    let data = sample(9);
    let mut sender = GuaranteedUdp::send_file(data.clone(), 4);
    sender.step(SenderEvent::Reply(ack()));
    let action = sender.step(SenderEvent::Reply(ack()));
    assert_eq!(action, SenderAction::Transmit(vec![0, 0, 0, 0, 0, 0, 0, 2, data[8]]));
}

#[test]
fn packet_larger_than_the_file_gives_one_chunk() {
    let data = sample(9);
    let mut sender = GuaranteedUdp::send_file(data.clone(), usize::MAX);
    assert_eq!(sender.chunk_total(), 1);
    assert_eq!(sender.next_action(), SenderAction::Transmit(encode(0, &data)));
    assert_eq!(sender.step(SenderEvent::Reply(ack())), SenderAction::Terminate(vec![]));
}
