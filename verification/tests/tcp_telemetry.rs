use svsm_vmm::tcp_telemetry::{
    enqueue_tcp_event, send_frame, sender_start_result, tcp_telemetry_task, telemetry_pending,
    wake_tcp_telemetry_sender, EventQueue, SendStep, SenderAction, SenderPhase, TcpEvent,
    TcpSender, Telemetry, WakeAction, QUEUE_CAPACITY, SEND_BATCH_SIZE,
};

fn event(sequence: u64) -> TcpEvent {
    TcpEvent {
        sequence,
        observed_tsc: 0x0102_0304_0506_0708,
        sock_ptr: 0xffff_8880_1234_5678,
        state: 1,
        source_ipv4: [10, 0, 0, 1],
        source_port: 40000,
        destination_ipv4: [10, 0, 0, 2],
        destination_port: 80,
    }
}

fn observe(telemetry: &mut Telemetry) -> bool {
    enqueue_tcp_event(telemetry, 11, 13, 1, [192, 0, 2, 1], 1234, [198, 51, 100, 2], 443)
}

fn write_of(action: SenderAction) -> (Vec<u8>, usize) {
    match action {
        SenderAction::Write { frame, offset } => (frame.to_vec(), offset),
        other => panic!("no write: {:?}", other),
    }
}

fn sequence_of(frame: &[u8]) -> u64 {
    u64::from_be_bytes(frame[8..16].try_into().unwrap())
}

fn dropped_of(frame: &[u8]) -> u64 {
    u64::from_be_bytes(frame[48..56].try_into().unwrap())
}

#[test]
fn tcp_event_wire_format() {
    let event = TcpEvent {
        sequence: 7,
        observed_tsc: 11,
        sock_ptr: 13,
        state: 1,
        source_ipv4: [192, 0, 2, 1],
        source_port: 1234,
        destination_ipv4: [198, 51, 100, 2],
        destination_port: 443,
    };
    let frame = event.encode(17);

    assert_eq!(&frame[0..4], b"CTCP");
    assert_eq!(frame[4], 1);
    assert_eq!(u16::from_be_bytes(frame[6..8].try_into().unwrap()), 56);
    assert_eq!(u64::from_be_bytes(frame[8..16].try_into().unwrap()), 7);
    assert_eq!(&frame[36..40], &[192, 0, 2, 1]);
    assert_eq!(u16::from_be_bytes(frame[46..48].try_into().unwrap()), 443);
    assert_eq!(u64::from_be_bytes(frame[48..56].try_into().unwrap()), 17);
}

#[test]
fn every_byte_of_a_frame() {
    let frame = event(0x1122_3344_5566_7788).encode(0x99aa_bbcc_ddee_ff00);
    let expected: Vec<u8> = vec![
        0x43, 0x54, 0x43, 0x50, 1, 1, 0, 56, 0x11, 0x22, 0x33, 0x44, 0x55, 0x66, 0x77, 0x88, 1, 2,
        3, 4, 5, 6, 7, 8, 0xff, 0xff, 0x88, 0x80, 0x12, 0x34, 0x56, 0x78, 1, 0, 0, 0, 10, 0, 0, 1,
        0x9c, 0x40, 10, 0, 0, 2, 0, 80, 0x99, 0xaa, 0xbb, 0xcc, 0xdd, 0xee, 0xff, 0,
    ];
    assert_eq!(frame.to_vec(), expected);
}

#[test]
fn frames_of_different_events_differ() {
    let a = event(1);
    let mut b = a;
    b.destination_port = 81;
    assert_ne!(a.encode(0).to_vec(), b.encode(0).to_vec());
    assert_ne!(a.encode(0).to_vec(), a.encode(1).to_vec());
}

#[test]
fn queue_is_first_in_first_out() {
    let mut queue = EventQueue::new();
    assert!(queue.is_empty());
    assert_eq!(queue.front(), None);
    assert!(queue.push(event(1)));
    assert!(queue.push(event(2)));
    assert!(!queue.is_empty());
    assert_eq!(queue.front(), Some(event(1)));
    queue.pop_front(1);
    assert_eq!(queue.front(), Some(event(2)));
    queue.pop_front(2);
    assert!(queue.is_empty());
}

#[test]
fn pop_needs_the_right_sequence() {
    let mut queue = EventQueue::new();
    queue.pop_front(1);
    assert!(queue.is_empty());
    assert!(queue.push(event(1)));
    queue.pop_front(2);
    assert_eq!(queue.front(), Some(event(1)));
}

#[test]
fn queue_refuses_when_full_and_wraps_around() {
    let mut queue = EventQueue::new();
    for i in 0..QUEUE_CAPACITY as u64 {
        assert!(queue.push(event(i)));
    }
    assert!(!queue.push(event(1000)));
    for i in 0..100 {
        assert_eq!(queue.front(), Some(event(i)));
        queue.pop_front(i);
    }
    for i in 128..228 {
        assert!(queue.push(event(i)));
    }
    assert!(!queue.push(event(1000)));
    for i in 100..228 {
        assert_eq!(queue.front(), Some(event(i)));
        queue.pop_front(i);
    }
    assert!(queue.is_empty());
}

#[test]
fn dropped_events_are_numbered_and_counted() {
    let mut telemetry = Telemetry::new();
    assert!(!telemetry_pending(&telemetry));
    for _ in 0..128 {
        assert!(observe(&mut telemetry));
    }
    assert!(!observe(&mut telemetry));
    assert!(!observe(&mut telemetry));
    assert!(telemetry_pending(&telemetry));
    assert_eq!(telemetry.last_sequence(), 130);

    let mut sender = TcpSender::new();
    tcp_telemetry_task(&mut sender, &mut telemetry, Ok(0));
    let (frame, offset) = write_of(tcp_telemetry_task(&mut sender, &mut telemetry, Ok(0)));
    assert_eq!(offset, 0);
    assert_eq!(sequence_of(&frame), 1);
    assert_eq!(dropped_of(&frame), 2);
}

#[test]
fn sender_is_started_once() {
    let mut telemetry = Telemetry::new();
    let start = WakeAction::StartTask { name: "TCP telemetry sender", argument: 0 };
    assert_eq!(wake_tcp_telemetry_sender(&mut telemetry), start);
    sender_start_result(&mut telemetry, false);
    assert_eq!(wake_tcp_telemetry_sender(&mut telemetry), start);
    sender_start_result(&mut telemetry, true);
    assert_eq!(wake_tcp_telemetry_sender(&mut telemetry), WakeAction::Schedule);
    assert_eq!(wake_tcp_telemetry_sender(&mut telemetry), WakeAction::Schedule);
}

#[test]
fn writes_add_up_to_a_frame() {
    assert_eq!(send_frame(56, 0, Ok(56)), SendStep::Sent);
    assert_eq!(send_frame(56, 0, Ok(20)), SendStep::More(20));
    assert_eq!(send_frame(56, 20, Ok(35)), SendStep::More(55));
    assert_eq!(send_frame(56, 55, Ok(1)), SendStep::Sent);
    assert_eq!(send_frame(56, 55, Ok(usize::MAX)), SendStep::Sent);
    assert_eq!(send_frame(56, 20, Ok(0)), SendStep::Failed);
    assert_eq!(send_frame(56, 20, Err(())), SendStep::Failed);
    assert_eq!(send_frame(0, 0, Ok(0)), SendStep::Sent);
    assert_eq!(send_frame(0, 0, Err(())), SendStep::Sent);
    assert_eq!(send_frame(56, 56, Ok(0)), SendStep::Sent);
}

#[test]
fn idle_sender_yields() {
    let mut telemetry = Telemetry::new();
    let mut sender = TcpSender::new();
    assert!(matches!(
        tcp_telemetry_task(&mut sender, &mut telemetry, Ok(0)),
        SenderAction::Schedule
    ));
    assert!(matches!(
        tcp_telemetry_task(&mut sender, &mut telemetry, Err(())),
        SenderAction::Schedule
    ));
}

#[test]
fn failed_connection_is_tried_again() {
    let mut telemetry = Telemetry::new();
    let mut sender = TcpSender::new();
    observe(&mut telemetry);
    for _ in 0..3 {
        assert!(matches!(
            tcp_telemetry_task(&mut sender, &mut telemetry, Ok(0)),
            SenderAction::Connect { port: 4050, cid: 2 }
        ));
        assert!(matches!(
            tcp_telemetry_task(&mut sender, &mut telemetry, Err(())),
            SenderAction::Schedule
        ));
        assert!(!sender.connected);
    }
    assert!(telemetry_pending(&telemetry));
}

#[test]
fn failed_frame_starts_over() {
    let mut telemetry = Telemetry::new();
    let mut sender = TcpSender::new();
    observe(&mut telemetry);
    observe(&mut telemetry);
    tcp_telemetry_task(&mut sender, &mut telemetry, Ok(0));
    tcp_telemetry_task(&mut sender, &mut telemetry, Ok(0));
    let (_, offset) = write_of(tcp_telemetry_task(&mut sender, &mut telemetry, Ok(30)));
    assert_eq!(offset, 30);
    assert!(matches!(
        tcp_telemetry_task(&mut sender, &mut telemetry, Err(())),
        SenderAction::Schedule
    ));
    assert!(!sender.connected);
    assert!(matches!(
        tcp_telemetry_task(&mut sender, &mut telemetry, Ok(0)),
        SenderAction::Connect { .. }
    ));
    let (frame, offset) = write_of(tcp_telemetry_task(&mut sender, &mut telemetry, Ok(0)));
    assert_eq!((sequence_of(&frame), offset), (1, 0));
    let (frame, offset) = write_of(tcp_telemetry_task(&mut sender, &mut telemetry, Ok(56)));
    assert_eq!((sequence_of(&frame), offset), (2, 0));
}

#[test]
fn sender_yields_after_a_batch() {
    let mut telemetry = Telemetry::new();
    let mut sender = TcpSender::new();
    for _ in 0..40 {
        assert!(observe(&mut telemetry));
    }
    tcp_telemetry_task(&mut sender, &mut telemetry, Ok(0));
    let mut action = tcp_telemetry_task(&mut sender, &mut telemetry, Ok(0));
    let mut sequences = Vec::new();
    while let SenderAction::Write { frame, .. } = action {
        sequences.push(sequence_of(&frame));
        action = tcp_telemetry_task(&mut sender, &mut telemetry, Ok(56));
    }
    assert!(matches!(action, SenderAction::Schedule));
    assert_eq!(sequences.len(), SEND_BATCH_SIZE);
    assert!(sender.connected);

    let mut action = tcp_telemetry_task(&mut sender, &mut telemetry, Ok(0));
    while let SenderAction::Write { frame, .. } = action {
        sequences.push(sequence_of(&frame));
        action = tcp_telemetry_task(&mut sender, &mut telemetry, Ok(56));
    }
    assert_eq!(sequences, (1..=40).collect::<Vec<u64>>());
    assert_eq!(sender.phase, SenderPhase::Idle);
    assert_eq!(sender.batch_count, 0);
    assert!(!telemetry_pending(&telemetry));
}

#[test]
fn host_receives_whole_frames() {
    let mut telemetry = Telemetry::new();
    let mut sender = TcpSender::new();
    for _ in 0..5 {
        observe(&mut telemetry);
    }
    let mut received = Vec::new();
    let mut reply = Ok(0);
    let mut size = 0;
    while telemetry_pending(&telemetry) {
        reply = match tcp_telemetry_task(&mut sender, &mut telemetry, reply) {
            SenderAction::Write { frame, offset } => {
                size = size % 23 + 7;
                let n = size.min(56 - offset);
                received.extend_from_slice(&frame[offset..offset + n]);
                Ok(n)
            }
            _ => Ok(0),
        };
    }
    assert_eq!(received.len(), 5 * 56);
    for (i, frame) in received.chunks(56).enumerate() {
        assert_eq!(&frame[0..4], b"CTCP");
        assert_eq!(sequence_of(frame), i as u64 + 1);
        assert_eq!(dropped_of(frame), 0);
    }
}
