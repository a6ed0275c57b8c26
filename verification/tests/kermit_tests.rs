use hplink::error::TransferError;
use hplink::kermit::{
    block_check_1, char_byte, ctl, make_f_packet, make_generic_packet, make_init_packet,
    make_packet_list, packet_body_len, parse_packet, tochar, unchar, unescape, KermitPacket,
};

fn reference_check(bytes: &[u8]) -> u8 {
    let s: u32 = bytes.iter().map(|b| *b as u32).sum();
    (((s + ((s & 192) >> 6)) & 63) + 32) as u8
}

fn wire(len: u8, seq: u8, ptype: u8, data: &[u8]) -> Vec<u8> {
    let mut p = vec![1, len, seq, ptype];
    p.extend_from_slice(data);
    let check = reference_check(&p[1..]);
    p.push(check);
    p.push(13);
    p
}

#[test]
fn printable_encoding() {
    assert_eq!(tochar(0), 32);
    assert_eq!(tochar(94), 126);
    assert_eq!(tochar(223), 255);
    assert_eq!(unchar(32), 0);
    assert_eq!(unchar(126), 94);
    assert_eq!(ctl(0), 64);
    assert_eq!(ctl(0x0a), 0x4a);
    assert_eq!(ctl(0x4a), 0x0a);
    assert_eq!(ctl(0xff), 0xbf);
    assert_eq!(char_byte('S'), 0x53);
    assert_eq!(char_byte('\u{153}'), 0x53);
}

#[test]
fn block_check_of_known_packets() {
    assert_eq!(block_check_1(&[0x24, 0x20, 0x47, 0x46]), 0x34);
    assert_eq!(block_check_1(&[]), 32);
    assert_eq!(block_check_1(&[0x23, 0x7d, 0x60]), 32);
    assert_eq!(block_check_1(&[0x20, 0x20, 0x00]), 33);
    assert_eq!(block_check_1(&[0x40, 0x40, 0x00]), 34);
    assert_eq!(block_check_1(&[0xff, 0xff, 0xff]), reference_check(&[0xff, 0xff, 0xff]));
}

#[test]
fn block_check_follows_the_fold_for_any_sum() {
    let mut data = Vec::new();
    for i in 0..700u32 {
        data.push((i * 7 % 256) as u8);
        assert_eq!(block_check_1(&data), reference_check(&data));
    }
}

#[test]
fn packet_goes_over_the_wire_with_check_and_markers() {
    let p = KermitPacket { len: 38, seq: 33, ptype: b'D', data: vec![b'a', b'b', b'c'] };
    assert_eq!(p.to_vec(), wire(38, 33, b'D', b"abc"));
    assert_eq!(p.calc_check(), reference_check(&[38, 33, b'D', b'a', b'b', b'c']));
    let v = p.to_vec();
    assert_eq!(v[v.len() - 2], p.calc_check());
    assert_eq!(v[0], 1);
    assert_eq!(v[v.len() - 1], 13);
}

#[test]
fn send_init_packet_announces_the_parameters() {
    let mut seq = 0u32;
    let p = make_init_packet(&mut seq, 'S');
    assert_eq!(seq, 1);
    assert_eq!(p, wire(43, 32, b'S', &[126, 34, 32, 64, 45, b'#', b'Y', b'1']));
    let y = make_init_packet(&mut seq, 'Y');
    assert_eq!(seq, 2);
    assert_eq!(y, wire(43, 33, b'Y', &[126, 34, 32, 64, 45, b'#', b'Y', b'1']));
}

#[test]
fn file_header_packet_carries_the_name() {
    let mut seq = 1u32;
    let p = make_f_packet(&mut seq, b"ABC");
    assert_eq!(seq, 2);
    assert_eq!(p, wire(32 + 6, 33, b'F', b"ABC"));
    let empty = make_f_packet(&mut seq, b"");
    assert_eq!(empty, wire(35, 34, b'F', b""));
}

#[test]
fn generic_packet_has_no_data() {
    let mut seq = 5u32;
    let p = make_generic_packet(&mut seq, 'Z');
    assert_eq!(seq, 6);
    assert_eq!(p, wire(35, 37, b'Z', b""));
    assert_eq!(p.len(), 6);
}

#[test]
fn sequence_field_wraps_at_64_and_counter_starts_over() {
    let mut seq = 63u32;
    let p = make_generic_packet(&mut seq, 'Y');
    assert_eq!(p[2], 32 + 63);
    let q = make_generic_packet(&mut seq, 'Y');
    assert_eq!(q[2], 32);
    assert_eq!(seq, 65);
    let mut last = u32::MAX;
    let r = make_generic_packet(&mut last, 'Y');
    assert_eq!(r[2], 32 + 63);
    assert_eq!(last, 0);
}

#[test]
fn control_bytes_are_prefixed_and_toggled() {
    let mut seq = 0u32;
    let list = make_packet_list(&[0x0a, 0x41, 0x23, 0x7f, 0x8a, 0xa3, 0xff, 0x00, 0x1f, 0x20], &mut seq);
    assert_eq!(list.len(), 1);
    assert_eq!(
        list[0].data,
        vec![
            b'#', 0x4a, 0x41, b'#', 0x63, b'#', 0x3f, b'#', 0xca, b'#', 0xe3, b'#', 0xbf, b'#',
            0x40, b'#', 0x5f, 0x20
        ]
    );
    assert_eq!(list[0].len, 32 + 18 + 3);
    assert_eq!(list[0].seq, 32);
    assert_eq!(list[0].ptype, b'D');
    assert_eq!(seq, 1);
}

#[test]
fn packets_close_once_they_exceed_the_budget() {
    let mut seq = 2u32;
    assert!(make_packet_list(&[], &mut seq).is_empty());
    assert_eq!(seq, 2);

    let list = make_packet_list(&[b'x'; 84], &mut seq);
    assert_eq!(list.len(), 1);
    assert_eq!(list[0].data.len(), 84);
    assert_eq!(seq, 3);

    let list = make_packet_list(&[b'x'; 85], &mut seq);
    assert_eq!(list.len(), 1);
    assert_eq!(list[0].data.len(), 85);
    assert_eq!(list[0].len, 32 + 88);

    let list = make_packet_list(&[b'x'; 86], &mut seq);
    assert_eq!(list.len(), 2);
    assert_eq!(list[0].data.len(), 85);
    assert_eq!(list[1].data.len(), 1);
    assert_eq!(list[1].seq, list[0].seq + 1);

    let mut data = vec![b'x'; 84];
    data.push(0x0d);
    data.push(b'y');
    let list = make_packet_list(&data, &mut seq);
    assert_eq!(list.len(), 2);
    assert_eq!(list[0].data.len(), 86);
    assert_eq!(list[0].len, 32 + 89);
    assert_eq!(list[1].data, vec![b'y']);
}

#[test]
fn packet_list_holds_the_escaped_file() {
    let data: Vec<u8> = (0..1000u32).map(|i| (i * 37 % 256) as u8).collect();
    let mut seq = 2u32;
    let list = make_packet_list(&data, &mut seq);
    assert_eq!(seq as usize, 2 + list.len());
    let mut joined = Vec::new();
    for (i, p) in list.iter().enumerate() {
        assert_eq!(p.len as usize, 32 + 3 + p.data.len());
        assert_eq!(p.seq as usize, 32 + (2 + i) % 64);
        assert_eq!(p.ptype, b'D');
        assert!(!p.data.is_empty() && p.data.len() <= 86);
        if i + 1 < list.len() {
            assert!(p.data.len() > 84);
        }
        joined.extend_from_slice(&p.data);
    }
    assert_eq!(unescape(&joined), Some(data));
}

#[test]
fn unescape_gives_back_every_byte() {
    let all: Vec<u8> = (0..=255u8).collect();
    let mut seq = 0u32;
    let list = make_packet_list(&all, &mut seq);
    let mut back = Vec::new();
    for p in &list {
        back.extend_from_slice(&unescape(&p.data).unwrap());
    }
    assert_eq!(back, all);
    assert_eq!(unescape(&[b'#', 0x4a, 0x41]), Some(vec![0x0a, 0x41]));
    assert_eq!(unescape(&[]), Some(vec![]));
    assert_eq!(unescape(&[0x41, b'#']), None);
    assert_eq!(unescape(&[b'#', b'#']), Some(vec![0x63]));
}

#[test]
fn header_says_how_much_follows() {
    assert_eq!(packet_body_len(&[1, 35, 32]), Ok(3));
    assert_eq!(packet_body_len(&[1, 43, 32]), Ok(11));
    assert_eq!(packet_body_len(&[1, 255, 32]), Ok(223));
    assert_eq!(packet_body_len(&[2, 35, 32]), Err(TransferError::ProtocolViolation));
    assert_eq!(packet_body_len(&[1, 34, 32]), Err(TransferError::ProtocolViolation));
    assert_eq!(packet_body_len(&[1, 35]), Err(TransferError::ProtocolViolation));
    assert_eq!(packet_body_len(&[0, 0, 0]), Err(TransferError::ProtocolViolation));
}

#[test]
fn written_packet_parses_back() {
    let p = KermitPacket { len: 32 + 3 + 4, seq: 40, ptype: b'D', data: vec![b'#', 0x4a, 1, 2] };
    let v = p.to_vec();
    let parsed = parse_packet(&v[..3], &v[3..]).unwrap();
    assert_eq!(parsed.len, p.len);
    assert_eq!(parsed.seq, p.seq);
    assert_eq!(parsed.ptype, p.ptype);
    assert_eq!(parsed.data, p.data);

    let mut seq = 0u32;
    let ack = make_generic_packet(&mut seq, 'Y');
    let parsed = parse_packet(&ack[..3], &ack[3..]).unwrap();
    assert_eq!(parsed.ptype, b'Y');
    assert!(parsed.data.is_empty());
}

#[test]
fn damaged_packet_is_refused() {
    let p = KermitPacket { len: 32 + 3 + 2, seq: 40, ptype: b'D', data: vec![7, 8] };
    let mut v = p.to_vec();
    v[5] ^= 1;
    assert!(matches!(parse_packet(&v[..3], &v[3..]), Err(TransferError::ChecksumMismatch)));
    let mut w = p.to_vec();
    let n = w.len();
    w[n - 2] = w[n - 2].wrapping_add(1);
    assert!(matches!(parse_packet(&w[..3], &w[3..]), Err(TransferError::ChecksumMismatch)));
    let good = p.to_vec();
    assert!(matches!(
        parse_packet(&good[..3], &good[3..good.len() - 1]),
        Err(TransferError::ProtocolViolation)
    ));
    assert!(matches!(
        parse_packet(&[9, good[1], good[2]], &good[3..]),
        Err(TransferError::ProtocolViolation)
    ));
}

#[test]
fn last_data_byte_is_not_taken_for_the_check() {
    let p = KermitPacket { len: 32 + 3 + 2, seq: 40, ptype: b'D', data: vec![7, 8] };
    assert_ne!(p.calc_check(), 8);
    assert_eq!(p.calc_check(), reference_check(&[37, 40, b'D', 7, 8]));
}
