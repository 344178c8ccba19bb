use aes67_to_ws::descriptor::SessionDescriptor;
use aes67_to_ws::rtp::RtpError;
use aes67_to_ws::stream::{
    Advisory, CloseReason, LoopAction, LoopEvent, ReceiveLoop, SequenceState, Stream, StreamError,
    Throughput,
};

fn feed(numbers: &[u16]) -> Vec<Advisory> {
    let mut state = SequenceState::new();
    let mut raised = Vec::new();
    for number in numbers {
        if let Some(advisory) = state.observe(*number) {
            raised.push(advisory);
        }
    }
    raised
}

fn packet(sequence: u16, payload: &[u8]) -> Vec<u8> {
    let mut bytes = vec![0x80, 0x60, (sequence >> 8) as u8, (sequence & 0xff) as u8];
    bytes.extend_from_slice(&[0, 0, 0, 1, 0, 0, 0, 2]);
    bytes.extend_from_slice(payload);
    bytes
}

#[test]
fn numbers_in_order_raise_nothing() {
    assert_eq!(feed(&[10, 11, 12]), vec![]);
    assert_eq!(feed(&[]), vec![]);
    assert_eq!(feed(&[4711]), vec![]);
}

#[test]
fn a_gap_raises_one_loss() {
    assert_eq!(feed(&[10, 12]), vec![Advisory::PacketLoss { lost: 1 }]);
    assert_eq!(feed(&[10, 20]), vec![Advisory::PacketLoss { lost: 9 }]);
    assert_eq!(feed(&[0, 32767]), vec![Advisory::PacketLoss { lost: 32766 }]);
    assert_eq!(feed(&[40000, 7231]), vec![Advisory::PacketLoss { lost: 32766 }]);
}

#[test]
fn a_step_back_raises_one_reorder() {
    assert_eq!(
        feed(&[12, 10]),
        vec![Advisory::OutOfOrder { sequence_number: 10, previous: 12 }]
    );
}

#[test]
fn a_repeat_raises_one_reorder() {
    assert_eq!(
        feed(&[12, 12]),
        vec![Advisory::OutOfOrder { sequence_number: 12, previous: 12 }]
    );
    assert_eq!(
        feed(&[0, 0]),
        vec![Advisory::OutOfOrder { sequence_number: 0, previous: 0 }]
    );
}

#[test]
fn the_wrap_raises_nothing() {
    assert_eq!(feed(&[65535, 0]), vec![]);
    assert_eq!(feed(&[65534, 65535, 0, 1]), vec![]);
}

#[test]
fn a_gap_across_the_wrap_raises_one_loss() {
    assert_eq!(feed(&[65535, 1]), vec![Advisory::PacketLoss { lost: 1 }]);
    assert_eq!(feed(&[65534, 0]), vec![Advisory::PacketLoss { lost: 1 }]);
    assert_eq!(feed(&[65530, 4]), vec![Advisory::PacketLoss { lost: 9 }]);
}

#[test]
fn a_step_back_across_the_wrap_raises_one_reorder() {
    assert_eq!(
        feed(&[0, 65535]),
        vec![Advisory::OutOfOrder { sequence_number: 65535, previous: 0 }]
    );
    assert_eq!(
        feed(&[3, 65530]),
        vec![Advisory::OutOfOrder { sequence_number: 65530, previous: 3 }]
    );
}

#[test]
fn half_the_counter_away_counts_as_a_step_back() {
    assert_eq!(
        feed(&[0, 32768]),
        vec![Advisory::OutOfOrder { sequence_number: 32768, previous: 0 }]
    );
    assert_eq!(
        feed(&[32768, 0]),
        vec![Advisory::OutOfOrder { sequence_number: 0, previous: 32768 }]
    );
}

#[test]
fn the_number_is_kept_whatever_was_raised() {
    let mut state = SequenceState::new();
    assert_eq!(state.previous, None);
    assert_eq!(state.observe(12), None);
    assert_eq!(state.previous, Some(12));
    assert!(state.observe(10).is_some());
    assert_eq!(state.previous, Some(10));
    assert_eq!(state.observe(11), None);
    assert_eq!(state.previous, Some(11));
    assert_eq!(state.observe(14), Some(Advisory::PacketLoss { lost: 2 }));
    assert_eq!(state.previous, Some(14));
    assert_eq!(
        feed(&[12, 10, 11, 14, 14, 15]),
        vec![
            Advisory::OutOfOrder { sequence_number: 10, previous: 12 },
            Advisory::PacketLoss { lost: 2 },
            Advisory::OutOfOrder { sequence_number: 14, previous: 14 },
        ]
    );
}

#[test]
fn a_new_loop_has_seen_nothing() {
    assert_eq!(
        ReceiveLoop::new(),
        ReceiveLoop { sequence: SequenceState { previous: None }, counter: 0 }
    );
}

#[test]
fn loop_ends_on_stop_and_failures() {
    let mut state = ReceiveLoop { sequence: SequenceState { previous: Some(3) }, counter: 4 };
    let before = state;
    assert_eq!(state.step(LoopEvent::Stop), LoopAction::Close(CloseReason::StopRequested));
    assert_eq!(state.step(LoopEvent::ReceiveFailed), LoopAction::Close(CloseReason::ReceiveFailed));
    assert_eq!(state.step(LoopEvent::ForwardFailed), LoopAction::Close(CloseReason::ForwardFailed));
    assert_eq!(state, before);
}

#[test]
fn loop_passes_over_an_empty_datagram() {
    let mut state = ReceiveLoop { sequence: SequenceState { previous: Some(3) }, counter: 4 };
    let before = state;
    assert_eq!(
        state.step(LoopEvent::Datagram { bytes: vec![], window_elapsed: true }),
        LoopAction::Continue
    );
    assert_eq!(state.on_datagram(&[], false), LoopAction::Continue);
    assert_eq!(state, before);
}

#[test]
fn loop_ends_on_a_malformed_packet() {
    let mut state = ReceiveLoop { sequence: SequenceState { previous: Some(3) }, counter: 4 };
    let before = state;
    assert_eq!(
        state.step(LoopEvent::Datagram { bytes: vec![1, 2, 3], window_elapsed: false }),
        LoopAction::Close(CloseReason::MalformedPacket(RtpError::BufferTooShort(3)))
    );
    assert_eq!(
        state.on_datagram(&packet(1, &[])[..].iter().map(|b| b & 0x3f).collect::<Vec<u8>>(), true),
        LoopAction::Close(CloseReason::MalformedPacket(RtpError::UnsupportedVersion(0)))
    );
    assert_eq!(state, before);
}

#[test]
fn loop_forwards_payloads_and_counts_them() {
    let mut state = ReceiveLoop::new();
    assert_eq!(
        state.step(LoopEvent::Datagram { bytes: packet(10, &[1, 2]), window_elapsed: false }),
        LoopAction::Forward { payload: vec![1, 2], advisory: None, report: None }
    );
    assert_eq!(state, ReceiveLoop { sequence: SequenceState { previous: Some(10) }, counter: 1 });
    assert_eq!(
        state.step(LoopEvent::Datagram { bytes: packet(11, &[3]), window_elapsed: false }),
        LoopAction::Forward { payload: vec![3], advisory: None, report: None }
    );
    assert_eq!(state, ReceiveLoop { sequence: SequenceState { previous: Some(11) }, counter: 2 });
    assert_eq!(
        state.on_datagram(&packet(13, &[4, 5, 6]), false),
        LoopAction::Forward {
            payload: vec![4, 5, 6],
            advisory: Some(Advisory::PacketLoss { lost: 1 }),
            report: None
        }
    );
    assert_eq!(state, ReceiveLoop { sequence: SequenceState { previous: Some(13) }, counter: 3 });
    assert_eq!(
        state.on_datagram(&packet(12, &[7, 8, 9, 10]), true),
        LoopAction::Forward {
            payload: vec![7, 8, 9, 10],
            advisory: Some(Advisory::OutOfOrder { sequence_number: 12, previous: 13 }),
            report: Some(Throughput { packets: 3, payload_size: 4 })
        }
    );
    assert_eq!(state, ReceiveLoop { sequence: SequenceState { previous: Some(12) }, counter: 0 });
    assert_eq!(
        state.on_datagram(&packet(13, &[]), false),
        LoopAction::Forward { payload: vec![], advisory: None, report: None }
    );
    assert_eq!(state.counter, 1);
}

#[test]
fn payloads_taken_in_directly() {
    let mut state = ReceiveLoop { sequence: SequenceState { previous: Some(65535) }, counter: 7 };
    assert_eq!(
        state.on_payload(vec![1], 0, true),
        LoopAction::Forward {
            payload: vec![1],
            advisory: None,
            report: Some(Throughput { packets: 7, payload_size: 1 })
        }
    );
    assert_eq!(state, ReceiveLoop { sequence: SequenceState { previous: Some(0) }, counter: 0 });
}

#[test]
fn the_count_stays_in_range() {
    let mut state = ReceiveLoop { sequence: SequenceState { previous: None }, counter: u64::MAX - 1 };
    state.on_payload(vec![], 1, false);
    assert_eq!(state.counter, u64::MAX);
    state.on_payload(vec![], 2, false);
    assert_eq!(state.counter, u64::MAX);
    assert_eq!(
        state.on_payload(vec![], 3, true),
        LoopAction::Forward {
            payload: vec![],
            advisory: None,
            report: Some(Throughput { packets: u64::MAX, payload_size: 0 })
        }
    );
    assert_eq!(state.counter, 0);
}

#[test]
fn a_stream_is_played_once() {
    let descriptor = SessionDescriptor::default();
    let mut stream = Stream::new(descriptor);
    assert_eq!(stream, Stream { descriptor, started: false });
    assert_eq!(stream.play(), Ok(ReceiveLoop::new()));
    assert_eq!(stream, Stream { descriptor, started: true });
    assert_eq!(stream.play(), Err(StreamError::AlreadyStarted));
    assert_eq!(stream.play(), Err(StreamError::AlreadyStarted));
    assert_eq!(stream, Stream { descriptor, started: true });
}
