use hplink::crc::checksum;
use hplink::helpers::div_up;
use hplink::nibbles::to_nibbles;
use hplink::xmodem::{
    additive_checksum, classify_frame, crc_conn4x, create_command_packet, data_to_128_packets,
    data_to_conn4x_packets, init_crc_array, trim_trailing_zeros, ChecksumMode, FrameKind,
};

fn conn4x_reference(data: &[u8]) -> u32 {
    let nibs = to_nibbles(data);
    checksum(&nibs, nibs.len())
}

#[test]
fn normal_checksum_of_zeros_and_of_ones() {
    assert_eq!(additive_checksum(&[0u8; 128]), 0);
    assert_eq!(additive_checksum(&[0xffu8; 128]), 128);
    assert_eq!(additive_checksum(&[]), 0);
    assert_eq!(additive_checksum(&[200, 100]), 44);

    let zeros = data_to_128_packets(&[0u8; 128], 0, ChecksumMode::Normal);
    assert_eq!(zeros.len(), 1);
    assert_eq!(zeros[0][131], 0);
    let ones = data_to_128_packets(&[0xffu8; 128], 0, ChecksumMode::Normal);
    assert_eq!(ones[0][131], 128);
}

#[test]
fn short_data_is_padded_and_the_padding_is_summed() {
    let list = data_to_128_packets(&[1, 2, 3], 0, ChecksumMode::Normal);
    assert_eq!(list.len(), 1);
    let p = &list[0];
    assert_eq!(p.len(), 132);
    assert_eq!(&p[..6], &[0x01, 1, 254, 1, 2, 3]);
    assert!(p[6..131].iter().all(|b| *b == 0x1a));
    assert_eq!(p[131], ((6 + 125 * 0x1a) % 256) as u8);
}

#[test]
fn full_last_packet_carries_data() {
    let data: Vec<u8> = (0..128u32).map(|i| i as u8).collect();
    let list = data_to_128_packets(&data, 0, ChecksumMode::Normal);
    assert_eq!(list.len(), 1);
    assert_eq!(&list[0][3..131], &data[..]);

    let more: Vec<u8> = (0..129u32).map(|i| (i + 1) as u8).collect();
    let list = data_to_128_packets(&more, 0, ChecksumMode::Normal);
    assert_eq!(list.len(), 2);
    assert_eq!(&list[0][3..131], &more[..128]);
    assert_eq!(list[1][3], 129);
    assert!(list[1][4..131].iter().all(|b| *b == 0x1a));
    assert_eq!(list[1][1], 2);
    assert_eq!(list[1][2], 253);

    assert!(data_to_128_packets(&[], 0, ChecksumMode::Normal).is_empty());
    assert!(data_to_128_packets(&[], 7, ChecksumMode::Conn4x).is_empty());
}

#[test]
fn sequence_starts_after_the_offset_and_wraps() {
    let list = data_to_128_packets(&[9u8; 300], 3, ChecksumMode::Normal);
    assert_eq!(list.len(), 3);
    assert_eq!((list[0][1], list[0][2]), (4, 251));
    assert_eq!((list[1][1], list[1][2]), (5, 250));
    assert_eq!((list[2][1], list[2][2]), (6, 249));
    let wrapped = data_to_128_packets(&[9u8; 200], 254, ChecksumMode::Normal);
    assert_eq!((wrapped[0][1], wrapped[0][2]), (255, 0));
    assert_eq!((wrapped[1][1], wrapped[1][2]), (0, 255));
    let far = data_to_128_packets(&[9u8; 1], usize::MAX, ChecksumMode::Normal);
    assert_eq!(far[0][1], 0);
}

#[test]
fn checksum_table_mixes_both_nibbles() {
    let t = init_crc_array();
    assert_eq!(t[0], 0);
    assert_eq!(t[1], 0x1081);
    assert_eq!(t[0x10], 0x1081);
    assert_eq!(t[0x11], 0);
    assert_eq!(t[0x5a], (0x5 ^ 0xa) * 0x1081);
    assert_eq!(t[0xf0], 0xf * 0x1081);
    for crc in 0..16u32 {
        for inp in 0..16u32 {
            assert_eq!(t[((crc << 4) | inp) as usize], (crc ^ inp) * 0x1081);
        }
    }
}

#[test]
fn conn4x_checksum_is_the_object_checksum_of_the_nibbles() {
    let t = init_crc_array();
    assert_eq!(crc_conn4x(&t, &[]), 0);
    assert_eq!(crc_conn4x(&t, &[0x01]), conn4x_reference(&[0x01]));
    let data: Vec<u8> = (0..1024u32).map(|i| (i * 13 % 251) as u8).collect();
    assert_eq!(crc_conn4x(&t, &data), conn4x_reference(&data));
    assert_eq!(crc_conn4x(&t, &[0x10]), 0x1081);
    assert_eq!(crc_conn4x(&t, &[0x01]), 0x1189);
}

#[test]
fn conn4x_small_packet_has_two_check_bytes() {
    let list = data_to_128_packets(&[5, 6], 0, ChecksumMode::Conn4x);
    assert_eq!(list.len(), 1);
    let p = &list[0];
    assert_eq!(p.len(), 133);
    let crc = conn4x_reference(&p[3..131]);
    assert_eq!(p[131], (crc >> 8) as u8);
    assert_eq!(p[132], (crc & 0xff) as u8);
}

#[test]
fn exactly_one_large_packet_for_1024_bytes() {
    let data: Vec<u8> = (0..1024u32).map(|i| (i % 256) as u8).collect();
    let list = data_to_conn4x_packets(&data);
    assert_eq!(list.len(), 1);
    let p = &list[0];
    assert_eq!(p.len(), 1024 + 5);
    assert_eq!(&p[..3], &[0x02, 1, 254]);
    assert_eq!(&p[3..1027], &data[..]);
    let crc = conn4x_reference(&data);
    assert_eq!(p[1027], (crc >> 8) as u8);
    assert_eq!(p[1028], (crc & 0xff) as u8);
}

#[test]
fn one_large_and_one_small_packet_for_1025_bytes() {
    let mut data: Vec<u8> = vec![7u8; 1024];
    data.push(0x42);
    let list = data_to_conn4x_packets(&data);
    assert_eq!(list.len(), 2);
    assert_eq!(list[0][0], 0x02);
    assert_eq!(list[0].len(), 1029);
    let small = &list[1];
    assert_eq!(small.len(), 133);
    assert_eq!(&small[..4], &[0x01, 2, 253, 0x42]);
    assert_eq!(small[4..131].iter().filter(|b| **b == 0x1a).count(), 127);
}

#[test]
fn small_file_and_empty_file_in_conn4x() {
    let list = data_to_conn4x_packets(&[1u8; 200]);
    assert_eq!(list.len(), 2);
    assert!(list.iter().all(|p| p[0] == 0x01 && p.len() == 133));
    assert_eq!(list[0][1], 1);
    assert_eq!(list[1][1], 2);
    assert!(data_to_conn4x_packets(&[]).is_empty());
    let big = data_to_conn4x_packets(&vec![3u8; 2048 + 128 + 1]);
    assert_eq!(big.len(), 4);
    assert_eq!(big.iter().map(|p| p[0]).collect::<Vec<u8>>(), vec![2, 2, 1, 1]);
    assert_eq!(big.iter().map(|p| p[1]).collect::<Vec<u8>>(), vec![1, 2, 3, 4]);
}

#[test]
fn command_packet_frames_the_name() {
    assert_eq!(
        create_command_packet(b"AB", 'P'),
        vec![b'P', 0, 2, b'A', b'B', (0x41u32 + 0x42) as u8]
    );
    assert_eq!(create_command_packet(b"", 'G'), vec![b'G', 0, 0, 0]);
    let long = vec![b'z'; 300];
    let p = create_command_packet(&long, 'G');
    assert_eq!(&p[..3], &[b'G', 1, 44]);
    assert_eq!(p.len(), 304);
    assert_eq!(p[303], ((300 * b'z' as u32) % 256) as u8);
}

#[test]
fn frames_are_told_apart() {
    let mut frame = vec![0u8; 132];
    frame[0] = 0x04;
    assert_eq!(classify_frame(&frame), FrameKind::EndOfTransmission);
    assert_eq!(classify_frame(&[0x04]), FrameKind::EndOfTransmission);
    frame[0] = 0x18;
    assert_eq!(classify_frame(&frame), FrameKind::Cancelled);
    let good = data_to_128_packets(&[1, 2, 3], 0, ChecksumMode::Normal).remove(0);
    assert_eq!(classify_frame(&good), FrameKind::Data);
    let mut bad = good.clone();
    bad[50] ^= 0x10;
    assert_eq!(classify_frame(&bad), FrameKind::Damaged);
    assert_eq!(classify_frame(&good[..131]), FrameKind::Damaged);
    assert_eq!(classify_frame(&[]), FrameKind::Damaged);
}

#[test]
fn zeros_at_the_end_are_taken_off() {
    let mut v = vec![1, 2, 3, 0, 0];
    trim_trailing_zeros(&mut v);
    assert_eq!(v, vec![1, 2, 3]);
    let mut inner = vec![0, 1, 0, 2, 0];
    trim_trailing_zeros(&mut inner);
    assert_eq!(inner, vec![0, 1, 0, 2]);
    let mut zeros = vec![0u8; 9];
    trim_trailing_zeros(&mut zeros);
    assert!(zeros.is_empty());
    let mut none = vec![5, 0x1a];
    trim_trailing_zeros(&mut none);
    assert_eq!(none, vec![5, 0x1a]);
    let mut empty: Vec<u8> = Vec::new();
    trim_trailing_zeros(&mut empty);
    assert!(empty.is_empty());
}

#[test]
fn rounded_up_division() {
    assert_eq!(div_up(0, 128), 0);
    assert_eq!(div_up(1, 128), 1);
    assert_eq!(div_up(128, 128), 1);
    assert_eq!(div_up(129, 128), 2);
    assert_eq!(div_up(7, 1), 7);
    assert_eq!(div_up(usize::MAX, 2), usize::MAX / 2 + 1);
    assert_eq!(div_up(usize::MAX, usize::MAX), 1);
}
