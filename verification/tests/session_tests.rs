use hplink::error::TransferError;
use hplink::kermit::{make_generic_packet, make_init_packet, KermitPacket};
use hplink::kermit_session::{
    get_file as kermit_get_file, make_finish_packet, send_file as kermit_send_file,
    KermitRecvState, KermitSendState,
};
use hplink::transport::{Action, Event};
use hplink::xmodem::{data_to_128_packets, data_to_conn4x_packets, ChecksumMode};
use hplink::xmodem_session::{
    get_file as xmodem_get_file, send_file_conn4x, send_file_normal, RecvState, SendState,
};
use std::collections::VecDeque;

const ACK: u8 = 0x06;
const NAK: u8 = 0x15;
const CAN: u8 = 0x18;
const EOT: u8 = 0x04;

fn received(bytes: &[u8]) -> Event {
    Event::Received(bytes.to_vec())
}

fn written_bytes(action: &Action) -> Vec<u8> {
    match action {
        Action::Write { bytes, .. } => bytes.clone(),
        other => panic!("expected a write, got {:?}", other),
    }
}

fn kermit_packet(seq: u8, ptype: u8, data: &[u8]) -> Vec<u8> {
    KermitPacket { len: 32 + 3 + data.len() as u8, seq: 32 + seq, ptype, data: data.to_vec() }
        .to_vec()
}

#[test]
fn xmodem_direct_send_with_every_packet_acknowledged() {
    let data = vec![0x55u8; 200];
    let packets = data_to_128_packets(&data, 0, ChecksumMode::Normal);
    let mut s = send_file_normal(&data);
    assert_eq!(s.step(Event::Start), Action::Read { len: 1, settle_ms: 0 });
    assert_eq!(s.step(received(&[NAK])), Action::Write { bytes: packets[0].clone(), settle_ms: 0 });
    assert_eq!(s.step(Event::Written), Action::Read { len: 1, settle_ms: 0 });
    assert_eq!(s.step(received(&[ACK])), Action::Write { bytes: packets[1].clone(), settle_ms: 0 });
    assert_eq!(s.step(Event::Written), Action::Read { len: 1, settle_ms: 0 });
    assert_eq!(s.step(received(&[ACK])), Action::Write { bytes: vec![EOT], settle_ms: 0 });
    assert_eq!(s.step(Event::Written), Action::Read { len: 1, settle_ms: 0 });
    assert_eq!(s.step(received(&[ACK])), Action::Done);
    assert_eq!(s.state, SendState::Done);
    assert_eq!(s.step(Event::Written), Action::Done);
}

#[test]
fn xmodem_third_refusal_is_fatal_and_nothing_is_written_a_fourth_time() {
    let data = vec![1u8; 10];
    let mut s = send_file_normal(&data);
    s.step(Event::Start);
    let mut writes = 0;
    let mut action = s.step(received(&[NAK]));
    loop {
        match action {
            Action::Write { .. } => {
                writes += 1;
                assert_eq!(s.step(Event::Written), Action::Read { len: 1, settle_ms: 0 });
                action = s.step(received(&[NAK]));
            }
            other => {
                assert_eq!(other, Action::Fail(TransferError::RetryExhausted));
                break;
            }
        }
    }
    assert_eq!(writes, 3);
    assert_eq!(s.state, SendState::Failed(TransferError::RetryExhausted));
    assert_eq!(s.step(received(&[ACK])), Action::Fail(TransferError::RetryExhausted));
}

#[test]
fn xmodem_refusals_are_counted_for_each_packet_anew() {
    let data = vec![1u8; 300];
    let packets = data_to_128_packets(&data, 0, ChecksumMode::Normal);
    let mut s = send_file_normal(&data);
    s.step(Event::Start);
    s.step(received(&[NAK]));
    for p in &packets {
        for _ in 0..2 {
            s.step(Event::Written);
            assert_eq!(s.step(received(&[NAK])), Action::Write { bytes: p.clone(), settle_ms: 0 });
        }
        s.step(Event::Written);
        let next = s.step(received(&[ACK]));
        assert!(matches!(next, Action::Write { .. }));
    }
    assert_eq!(s.state, SendState::EotWritten);
}

#[test]
fn xmodem_cancel_ends_the_send_at_once() {
    let mut s = send_file_normal(&[1, 2, 3]);
    s.step(Event::Start);
    s.step(received(&[NAK]));
    s.step(Event::Written);
    assert_eq!(s.step(received(&[CAN])), Action::Fail(TransferError::TransferCancelled));
}

#[test]
fn xmodem_any_answer_but_ack_and_can_has_the_packet_written_again() {
    let packets = data_to_128_packets(&[1, 2, 3], 0, ChecksumMode::Normal);
    let mut s = send_file_normal(&[1, 2, 3]);
    s.step(Event::Start);
    s.step(received(&[NAK]));
    s.step(Event::Written);
    assert_eq!(s.step(received(&[0x43])), Action::Write { bytes: packets[0].clone(), settle_ms: 0 });
    s.step(Event::Written);
    assert_eq!(s.step(received(&[0x00])), Action::Write { bytes: packets[0].clone(), settle_ms: 0 });
    s.step(Event::Written);
    assert_eq!(s.step(received(&[0x43])), Action::Fail(TransferError::RetryExhausted));
}

#[test]
fn xmodem_server_must_answer_as_the_protocol_says() {
    let mut a = send_file_conn4x(b"N", &[1], false);
    a.step(Event::Start);
    a.step(Event::Written);
    assert_eq!(a.step(received(&[NAK])), Action::Fail(TransferError::ProtocolViolation));

    let mut b = send_file_conn4x(b"N", &[1], false);
    b.step(Event::Start);
    b.step(Event::Written);
    b.step(received(&[ACK]));
    assert_eq!(b.step(received(&[ACK])), Action::Fail(TransferError::ProtocolViolation));

    let mut c = send_file_conn4x(b"N", &[1], false);
    c.step(Event::Start);
    c.step(Event::Written);
    c.step(received(&[ACK]));
    c.step(received(&[b'D']));
    c.step(Event::Written);
    assert_eq!(c.step(received(&[ACK])), Action::Write { bytes: vec![EOT], settle_ms: 0 });
    c.step(Event::Written);
    assert_eq!(c.step(received(&[NAK])), Action::Fail(TransferError::ProtocolViolation));

    let mut d = send_file_normal(&[1]);
    d.step(Event::Start);
    assert!(matches!(d.step(received(&[b'C'])), Action::Write { .. }));
}

#[test]
fn xmodem_transport_failure_and_stray_events() {
    let mut s = send_file_normal(&[1, 2, 3]);
    s.step(Event::Start);
    assert_eq!(s.step(Event::Failed), Action::Fail(TransferError::TransportIO));
    let mut t = send_file_normal(&[1, 2, 3]);
    assert_eq!(t.step(Event::Written), Action::Fail(TransferError::ProtocolViolation));
    let mut u = send_file_normal(&[1, 2, 3]);
    u.step(Event::Start);
    assert_eq!(u.step(received(&[])), Action::Fail(TransferError::TransportIO));
    let mut v = send_file_normal(&[]);
    v.step(Event::Start);
    assert_eq!(v.step(received(&[NAK])), Action::Done);
}

#[test]
fn xmodem_server_send_starts_with_the_command_and_ends_with_quit() {
    let data = vec![9u8; 1025];
    let packets = data_to_conn4x_packets(&data);
    let mut s = send_file_conn4x(b"NAME", &data, true);
    assert_eq!(
        s.step(Event::Start),
        Action::Write { bytes: vec![b'P', 0, 4, b'N', b'A', b'M', b'E', 0x21], settle_ms: 0 }
    );
    assert_eq!(s.step(Event::Written), Action::Read { len: 1, settle_ms: 0 });
    assert_eq!(s.step(received(&[ACK])), Action::Read { len: 1, settle_ms: 0 });
    assert_eq!(s.step(received(&[b'D'])), Action::Write { bytes: packets[0].clone(), settle_ms: 0 });
    s.step(Event::Written);
    assert_eq!(s.step(received(&[ACK])), Action::Write { bytes: packets[1].clone(), settle_ms: 0 });
    s.step(Event::Written);
    assert_eq!(s.step(received(&[ACK])), Action::Write { bytes: vec![EOT], settle_ms: 0 });
    s.step(Event::Written);
    assert_eq!(s.step(received(&[ACK])), Action::Write { bytes: vec![b'Q'], settle_ms: 300 });
    assert_eq!(s.step(Event::Written), Action::Done);
}

fn frame_of(payload: &[u8], number: usize) -> Vec<u8> {
    data_to_128_packets(payload, number, ChecksumMode::Normal).remove(0)
}

#[test]
fn xmodem_direct_receive_appends_trims_and_acknowledges() {
    let mut first = vec![7u8; 128];
    first[0] = 0;
    let mut second = vec![0u8; 128];
    second[..3].copy_from_slice(&[1, 2, 3]);
    let mut r = xmodem_get_file(b"", true, false);
    assert_eq!(r.step(Event::Start), Action::Write { bytes: vec![NAK], settle_ms: 500 });
    assert_eq!(r.step(Event::Written), Action::Read { len: 132, settle_ms: 300 });
    assert_eq!(r.step(received(&frame_of(&first, 0))), Action::Write { bytes: vec![ACK], settle_ms: 0 });
    assert_eq!(r.step(Event::Written), Action::Read { len: 132, settle_ms: 300 });
    assert_eq!(r.step(received(&frame_of(&second, 1))), Action::Write { bytes: vec![ACK], settle_ms: 0 });
    assert_eq!(r.data.len(), 256);
    r.step(Event::Written);
    let mut eot = vec![0u8; 132];
    eot[0] = EOT;
    assert_eq!(r.step(received(&eot)), Action::Write { bytes: vec![ACK], settle_ms: 0 });
    assert_eq!(r.step(Event::Written), Action::Done);
    let mut expected = first.clone();
    expected.extend_from_slice(&[1, 2, 3]);
    assert_eq!(r.data, expected);
    assert_eq!(r.state, RecvState::Done);
}

#[test]
fn xmodem_receive_asks_again_for_a_damaged_frame_up_to_the_bound() {
    let good = frame_of(&[4u8; 128], 0);
    let mut bad = good.clone();
    bad[10] ^= 0xff;
    let mut r = xmodem_get_file(b"", true, false);
    r.step(Event::Start);
    r.step(Event::Written);
    assert_eq!(r.step(received(&bad)), Action::Write { bytes: vec![NAK], settle_ms: 0 });
    assert!(r.data.is_empty());
    r.step(Event::Written);
    assert_eq!(r.step(received(&bad)), Action::Write { bytes: vec![NAK], settle_ms: 0 });
    r.step(Event::Written);
    assert_eq!(r.step(received(&good)), Action::Write { bytes: vec![ACK], settle_ms: 0 });
    assert_eq!(r.data, vec![4u8; 128]);
    r.step(Event::Written);
    for _ in 0..2 {
        assert_eq!(r.step(received(&bad)), Action::Write { bytes: vec![NAK], settle_ms: 0 });
        r.step(Event::Written);
    }
    assert_eq!(r.step(received(&bad)), Action::Fail(TransferError::RetryExhausted));
    assert_eq!(r.data, vec![4u8; 128]);
}

#[test]
fn xmodem_receive_keeps_nothing_when_cancelled() {
    let mut r = xmodem_get_file(b"", true, false);
    r.step(Event::Start);
    r.step(Event::Written);
    r.step(received(&frame_of(&[4u8; 128], 0)));
    r.step(Event::Written);
    let mut can = vec![0u8; 132];
    can[0] = CAN;
    assert_eq!(r.step(received(&can)), Action::Fail(TransferError::TransferCancelled));
    assert!(r.data.is_empty());
}

#[test]
fn xmodem_server_receive_sends_the_command_and_quits() {
    let mut r = xmodem_get_file(b"AB", false, true);
    assert_eq!(
        r.step(Event::Start),
        Action::Write { bytes: vec![b'G', 0, 2, b'A', b'B', 0x83], settle_ms: 0 }
    );
    assert_eq!(r.step(Event::Written), Action::Read { len: 1, settle_ms: 0 });
    assert_eq!(r.step(received(&[ACK])), Action::Write { bytes: vec![NAK], settle_ms: 500 });
    r.step(Event::Written);
    let mut eot = vec![0u8; 132];
    eot[0] = EOT;
    assert_eq!(r.step(received(&eot)), Action::Write { bytes: vec![ACK], settle_ms: 0 });
    assert_eq!(r.step(Event::Written), Action::Write { bytes: vec![b'Q'], settle_ms: 300 });
    assert_eq!(r.step(Event::Written), Action::Done);
    assert!(r.data.is_empty());

    let mut refused = xmodem_get_file(b"AB", false, false);
    refused.step(Event::Start);
    refused.step(Event::Written);
    assert_eq!(refused.step(received(&[NAK])), Action::Fail(TransferError::ProtocolViolation));
}

#[test]
fn kermit_send_writes_the_plan_and_waits_for_each_acknowledgment() {
    let data = vec![b'x'; 100];
    let mut s = kermit_send_file(b"NAME", &data, false);
    assert_eq!(s.packets.len(), 6);
    let mut seq = 0u32;
    assert_eq!(s.packets[0], make_init_packet(&mut seq, 'S'));
    assert_eq!(s.packets[1], kermit_packet(1, b'F', b"NAME"));
    assert_eq!(s.packets[2], kermit_packet(2, b'D', &[b'x'; 85]));
    assert_eq!(s.packets[3], kermit_packet(3, b'D', &[b'x'; 15]));
    assert_eq!(s.packets[4], kermit_packet(4, b'Z', b""));
    assert_eq!(s.packets[5], kermit_packet(5, b'B', b""));

    let ack = kermit_packet(0, b'Y', b"");
    let mut action = s.step(Event::Start);
    for i in 0..6 {
        let settle = if i == 5 { 300 } else { 0 };
        assert_eq!(action, Action::Write { bytes: s.packets[i].clone(), settle_ms: settle });
        assert_eq!(s.step(Event::Written), Action::Read { len: 3, settle_ms: 300 });
        assert_eq!(s.step(received(&ack[..3])), Action::Read { len: 3, settle_ms: 50 });
        action = s.step(received(&ack[3..]));
    }
    assert_eq!(action, Action::Done);
    assert_eq!(s.state, KermitSendState::Done);
}

#[test]
fn kermit_send_tells_the_server_to_finish() {
    let mut s = kermit_send_file(b"N", b"", true);
    assert_eq!(s.packets.len(), 4);
    let ack = kermit_packet(0, b'Y', b"");
    let mut action = s.step(Event::Start);
    for _ in 0..4 {
        assert!(matches!(action, Action::Write { .. }));
        s.step(Event::Written);
        s.step(received(&ack[..3]));
        action = s.step(received(&ack[3..]));
    }
    let mut zero = 0u32;
    assert_eq!(action, Action::Write { bytes: make_init_packet(&mut zero, 'I'), settle_ms: 0 });
    assert_eq!(
        s.step(Event::Written),
        Action::Write { bytes: vec![0x01, 0x24, 0x20, b'G', b'F', 0x34, 0x0d], settle_ms: 300 }
    );
    assert_eq!(s.step(Event::Written), Action::Done);
    assert_eq!(make_finish_packet(), kermit_packet(0, b'G', b"F"));
}

#[test]
fn kermit_send_fails_at_once_on_a_bad_answer() {
    let nak = kermit_packet(0, b'N', b"");
    let mut s = kermit_send_file(b"N", b"abc", false);
    s.step(Event::Start);
    s.step(Event::Written);
    s.step(received(&nak[..3]));
    assert_eq!(s.step(received(&nak[3..])), Action::Fail(TransferError::ProtocolViolation));
    assert_eq!(s.step(Event::Written), Action::Fail(TransferError::ProtocolViolation));

    let mut damaged = kermit_packet(0, b'Y', b"");
    damaged[4] ^= 1;
    let mut t = kermit_send_file(b"N", b"abc", false);
    t.step(Event::Start);
    t.step(Event::Written);
    t.step(received(&damaged[..3]));
    assert_eq!(t.step(received(&damaged[3..])), Action::Fail(TransferError::ChecksumMismatch));

    let mut u = kermit_send_file(b"N", b"abc", false);
    u.step(Event::Start);
    u.step(Event::Written);
    assert_eq!(u.step(received(&[0, 0, 0])), Action::Fail(TransferError::ProtocolViolation));

    let mut v = kermit_send_file(b"N", b"abc", false);
    v.step(Event::Start);
    assert_eq!(v.step(Event::Failed), Action::Fail(TransferError::TransportIO));
}

fn feed_packet(r: &mut hplink::kermit_session::KermitReceiver, packet: &[u8]) -> Action {
    let body = r.step(received(&packet[..3]));
    assert_eq!(body, Action::Read { len: packet.len() - 3, settle_ms: 50 });
    r.step(received(&packet[3..]))
}

#[test]
fn kermit_receive_acknowledges_each_packet_and_unescapes_the_data() {
    let mut r = kermit_get_file();
    let mut seq = 0u32;
    assert_eq!(r.step(Event::Start), Action::Read { len: 3, settle_ms: 300 });
    let init = make_init_packet(&mut 0, 'S');
    assert_eq!(
        feed_packet(&mut r, &init),
        Action::Write { bytes: make_init_packet(&mut seq, 'Y'), settle_ms: 300 }
    );
    assert_eq!(r.step(Event::Written), Action::Read { len: 3, settle_ms: 600 });
    assert_eq!(
        feed_packet(&mut r, &kermit_packet(1, b'F', b"NAME")),
        Action::Write { bytes: make_generic_packet(&mut seq, 'Y'), settle_ms: 0 }
    );
    assert_eq!(r.step(Event::Written), Action::Read { len: 3, settle_ms: 300 });
    assert_eq!(
        feed_packet(&mut r, &kermit_packet(2, b'D', &[b'a', b'#', 0x4a, b'b'])),
        Action::Write { bytes: make_generic_packet(&mut seq, 'Y'), settle_ms: 0 }
    );
    r.step(Event::Written);
    feed_packet(&mut r, &kermit_packet(3, b'D', &[b'#', 0x40]));
    seq += 1;
    r.step(Event::Written);
    assert_eq!(
        feed_packet(&mut r, &kermit_packet(4, b'Z', b"")),
        Action::Write { bytes: make_generic_packet(&mut seq, 'Y'), settle_ms: 0 }
    );
    assert_eq!(r.step(Event::Written), Action::Read { len: 3, settle_ms: 300 });
    assert_eq!(
        feed_packet(&mut r, &kermit_packet(5, b'B', b"")),
        Action::Write { bytes: make_generic_packet(&mut seq, 'Y'), settle_ms: 0 }
    );
    assert_eq!(r.step(Event::Written), Action::Done);
    assert_eq!(r.data, vec![b'a', 0x0a, b'b', 0x00]);
    assert_eq!(r.packets, 2);
    assert_eq!(r.seq, 6);
    assert_eq!(r.state, KermitRecvState::Done);
}

#[test]
fn kermit_receive_fails_on_a_packet_that_is_not_due() {
    let mut r = kermit_get_file();
    r.step(Event::Start);
    assert_eq!(
        feed_packet(&mut r, &kermit_packet(0, b'F', b"NAME")),
        Action::Fail(TransferError::ProtocolViolation)
    );

    let mut d = kermit_get_file();
    d.step(Event::Start);
    feed_packet(&mut d, &kermit_packet(0, b'S', b""));
    d.step(Event::Written);
    feed_packet(&mut d, &kermit_packet(1, b'F', b"N"));
    d.step(Event::Written);
    assert_eq!(
        feed_packet(&mut d, &kermit_packet(2, b'D', &[b'a', b'#'])),
        Action::Fail(TransferError::ProtocolViolation)
    );
    assert!(d.data.is_empty());

    let mut e = kermit_get_file();
    e.step(Event::Start);
    feed_packet(&mut e, &kermit_packet(0, b'S', b""));
    e.step(Event::Written);
    feed_packet(&mut e, &kermit_packet(1, b'F', b"N"));
    e.step(Event::Written);
    assert_eq!(
        feed_packet(&mut e, &kermit_packet(2, b'B', b"")),
        Action::Fail(TransferError::ProtocolViolation)
    );

    let mut c = kermit_get_file();
    c.step(Event::Start);
    let mut damaged = kermit_packet(0, b'S', b"");
    damaged[3] = b'T';
    assert_eq!(feed_packet(&mut c, &damaged), Action::Fail(TransferError::ChecksumMismatch));
}

#[test]
fn kermit_sender_and_receiver_carry_a_file_across() {
    let file: Vec<u8> = (0..5000u32).map(|i| (i * 31 % 256) as u8).collect();
    let mut sender = kermit_send_file(b"FILE", &file, false);
    let mut receiver = kermit_get_file();
    let mut to_receiver: VecDeque<u8> = VecDeque::new();
    let mut to_sender: VecDeque<u8> = VecDeque::new();
    let mut s_action = sender.step(Event::Start);
    let mut r_action = receiver.step(Event::Start);
    let mut rounds = 0;
    while !(s_action == Action::Done && r_action == Action::Done) {
        rounds += 1;
        assert!(rounds < 10000, "no progress");
        if let Action::Write { bytes, .. } = &s_action {
            to_receiver.extend(bytes.iter());
            s_action = sender.step(Event::Written);
        }
        if let Action::Write { bytes, .. } = &r_action {
            to_sender.extend(bytes.iter());
            r_action = receiver.step(Event::Written);
        }
        if let Action::Read { len, .. } = s_action {
            if to_sender.len() >= len {
                let bytes: Vec<u8> = to_sender.drain(..len).collect();
                s_action = sender.step(Event::Received(bytes));
            }
        }
        if let Action::Read { len, .. } = r_action {
            if to_receiver.len() >= len {
                let bytes: Vec<u8> = to_receiver.drain(..len).collect();
                r_action = receiver.step(Event::Received(bytes));
            }
        }
        assert!(!matches!(s_action, Action::Fail(_)));
        assert!(!matches!(r_action, Action::Fail(_)));
    }
    assert_eq!(receiver.data, file);
    assert_eq!(receiver.packets as usize, sender.packets.len() - 4);
}

#[test]
fn xmodem_sender_and_receiver_carry_a_file_across() {
    let mut file: Vec<u8> = (0..1000u32).map(|i| (i * 7 % 255 + 1) as u8).collect();
    file.push(0x1a);
    let mut sender = send_file_normal(&file);
    let mut receiver = xmodem_get_file(b"", true, false);
    let mut to_receiver: VecDeque<u8> = VecDeque::new();
    let mut to_sender: VecDeque<u8> = VecDeque::new();
    let mut s_action = sender.step(Event::Start);
    let mut r_action = receiver.step(Event::Start);
    let mut rounds = 0;
    while !(s_action == Action::Done && r_action == Action::Done) {
        rounds += 1;
        assert!(rounds < 1000, "no progress");
        if let Action::Write { bytes, .. } = &s_action {
            to_receiver.extend(bytes.iter());
            s_action = sender.step(Event::Written);
        }
        if let Action::Write { bytes, .. } = &r_action {
            to_sender.extend(bytes.iter());
            r_action = receiver.step(Event::Written);
        }
        if let Action::Read { len, .. } = s_action {
            if to_sender.len() >= len {
                let bytes: Vec<u8> = to_sender.drain(..len).collect();
                s_action = sender.step(Event::Received(bytes));
            }
        }
        if let Action::Read { len, .. } = r_action {
            if !to_receiver.is_empty() {
                let take = len.min(to_receiver.len());
                let mut bytes: Vec<u8> = to_receiver.drain(..take).collect();
                bytes.resize(len, 0);
                r_action = receiver.step(Event::Received(bytes));
            }
        }
        assert!(!matches!(s_action, Action::Fail(_)));
        assert!(!matches!(r_action, Action::Fail(_)));
    }
    let mut expected = file.clone();
    expected.resize(1024, 0x1a);
    assert_eq!(receiver.data, expected);
    assert_eq!(written_bytes(&Action::Write { bytes: vec![1], settle_ms: 0 }), vec![1]);
}
