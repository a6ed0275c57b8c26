//! XModem packets in the two checksum modes, the command packet of the
//! XModem server, and what the receiving side does to a frame.

use crate::crc::{crc_step, lemma_crc_step_16_bit, spec_checksum};
use crate::helpers::{byte_sum, div_up, lemma_byte_sum_push, lemma_div_up, spec_div_up};
use crate::nibbles::{bytes_to_nibbles, lemma_bytes_to_nibbles};
use crate::transport::frames_of;
use vstd::prelude::*;
use vstd::slice::slice_subrange;

verus! {

/// Marks a packet of 128 bytes.
pub const SOH: u8 = 0x01;

/// Marks a packet of 1024 bytes.
pub const STX: u8 = 0x02;

/// End of transmission.
pub const EOT: u8 = 0x04;

/// Acknowledgment.
pub const ACK: u8 = 0x06;

/// Negative acknowledgment.
pub const NAK: u8 = 0x15;

/// Cancel.
pub const CAN: u8 = 0x18;

/// Fills the last packet.
pub const SUB: u8 = 0x1a;

/// Payload of a small packet.
pub const BLOCK: usize = 128;

/// Payload of a large packet.
pub const BIG_BLOCK: usize = 1024;

/// A small packet with a one-byte check, as the receiving side reads it.
pub const FRAME_LEN: usize = 132;

/// The longest name that a command packet can carry: its count has 16 bits.
pub const MAX_NAME: usize = 0xffff;

/// How a packet is checked.
#[derive(Clone, Copy, Debug, PartialEq, Eq, Structural)]
pub enum ChecksumMode {
    /// The sum of the payload modulo 256, one byte.
    Normal,
    /// The calculator's nibble-wise checksum of the payload, two bytes,
    /// high byte first.
    Conn4x,
}

/// The sequence byte of packet number `n`: numbers wrap at 256.
pub open spec fn seq_byte(n: int) -> u8 {
    (n % 256) as u8
}

/// The one's complement of a sequence byte.
pub open spec fn complement(seq: u8) -> u8 {
    (255 - seq) as u8
}

/// The 128 bytes of `data` from `start` on, filled up with `SUB` where the
/// data ends before.
pub open spec fn padded_block(data: Seq<u8>, start: int) -> Seq<u8> {
    Seq::new(
        BLOCK as nat,
        |j: int|
            if start + j < data.len() {
                data[start + j]
            } else {
                SUB
            },
    )
}

/// The check of the normal mode: the sum of the payload modulo 256.
pub open spec fn additive_check(payload: Seq<u8>) -> u8 {
    (byte_sum(payload) % 256) as u8
}

/// The check of the Conn4x mode: the calculator's checksum over the
/// payload's nibbles, low nibble of each byte first.
pub open spec fn conn4x_crc(payload: Seq<u8>) -> u32 {
    spec_checksum(bytes_to_nibbles(payload))
}

/// The check bytes that follow a payload.
pub open spec fn check_bytes(mode: ChecksumMode, payload: Seq<u8>) -> Seq<u8> {
    match mode {
        ChecksumMode::Normal => seq![additive_check(payload)],
        ChecksumMode::Conn4x => seq![
            (conn4x_crc(payload) / 256) as u8,
            (conn4x_crc(payload) % 256) as u8,
        ],
    }
}

/// A packet: marker, sequence byte, its complement, payload, check.
pub open spec fn frame(marker: u8, number: int, payload: Seq<u8>, mode: ChecksumMode) -> Seq<
    u8,
> {
    seq![marker, seq_byte(number), complement(seq_byte(number))] + payload + check_bytes(
        mode,
        payload,
    )
}

/// The small packet at index `i` for `data`, where `offset` packets went
/// before the first: numbers start at 1.
pub open spec fn spec_packet_128(data: Seq<u8>, i: int, offset: int, mode: ChecksumMode) -> Seq<
    u8,
> {
    frame(SOH, i + 1 + offset, padded_block(data, BLOCK * i), mode)
}

/// The small packets for `data`: one for each 128 bytes begun.
pub open spec fn spec_packets_128(data: Seq<u8>, offset: int, mode: ChecksumMode) -> Seq<
    Seq<u8>,
> {
    Seq::new(
        spec_div_up(data.len() as int, BLOCK as int) as nat,
        |i: int| spec_packet_128(data, i, offset, mode),
    )
}

/// The large packet at index `i` for `data`.
pub open spec fn spec_packet_1k(data: Seq<u8>, i: int) -> Seq<u8> {
    frame(STX, i + 1, data.subrange(BIG_BLOCK * i, BIG_BLOCK * (i + 1)), ChecksumMode::Conn4x)
}

/// The number of large packets for `data`: one for each 1024 bytes that
/// are all there.
pub open spec fn big_count(data: Seq<u8>) -> nat {
    data.len() / (BIG_BLOCK as nat)
}

/// The Conn4x packets for `data`: large ones as long as 1024 bytes are
/// left, then small ones for what remains, numbered on from the large ones.
pub open spec fn spec_conn4x_packets(data: Seq<u8>) -> Seq<Seq<u8>> {
    Seq::new(big_count(data), |i: int| spec_packet_1k(data, i)) + spec_packets_128(
        data.skip(BIG_BLOCK * big_count(data)),
        big_count(data) as int,
        ChecksumMode::Conn4x,
    )
}

/// The entry of the checksum table at `i`: the table is indexed by a
/// checksum nibble in the high half and an input nibble in the low half,
/// and holds `0x1081` times the exclusive or of the two.
pub open spec fn crc_table_entry(i: int) -> u32 {
    ((((i / 16) as u32) ^ ((i % 16) as u32)) * 0x1081) as u32
}

/// `table` is the checksum table.
pub open spec fn is_crc_table(table: Seq<u32>) -> bool {
    &&& table.len() == 256
    &&& forall|i: int| 0 <= i < 256 ==> #[trigger] table[i] == crc_table_entry(i)
}

/// The command packet of the XModem server: the command, the length of the
/// name in 16 bits, high byte first, the name, and the sum of the name
/// modulo 256.
pub open spec fn spec_command_packet(name: Seq<u8>, cmd: u8) -> Seq<u8> {
    seq![cmd, (name.len() / 256) as u8, (name.len() % 256) as u8] + name + seq![
        additive_check(name),
    ]
}

/// Number of bytes of `data` that are left when the zero bytes at its end
/// are taken off.
pub open spec fn trimmed_len(data: Seq<u8>) -> nat
    decreases data.len(),
{
    if data.len() == 0 || data.last() != 0 {
        data.len()
    } else {
        trimmed_len(data.drop_last())
    }
}

/// What the receiving side makes of a frame.
#[derive(Clone, Copy, Debug, PartialEq, Eq, Structural)]
pub enum FrameKind {
    /// The sender has no more packets.
    EndOfTransmission,
    /// The sender cancelled.
    Cancelled,
    /// A packet whose check matches its payload.
    Data,
    /// Anything else: the packet must be sent again.
    Damaged,
}

/// The payload of a frame of `FRAME_LEN` bytes.
pub open spec fn frame_payload(frame: Seq<u8>) -> Seq<u8> {
    frame.subrange(3, 3 + BLOCK)
}

/// What the receiving side makes of a frame: the first byte decides on end
/// and cancel; else the frame is a packet if it is `FRAME_LEN` bytes long
/// and its last byte is the sum of its payload modulo 256.
pub open spec fn spec_classify_frame(frame: Seq<u8>) -> FrameKind {
    if frame.len() >= 1 && frame[0] == EOT {
        FrameKind::EndOfTransmission
    } else if frame.len() >= 1 && frame[0] == CAN {
        FrameKind::Cancelled
    } else if frame.len() == FRAME_LEN && frame[FRAME_LEN - 1] == additive_check(
        frame_payload(frame),
    ) {
        FrameKind::Data
    } else {
        FrameKind::Damaged
    }
}

/// How many Conn4x packets a file makes, and of which size: one large
/// packet for each 1024 bytes that are all there, then one small packet
/// for each 128 bytes begun of what remains. A file of a multiple of 1024
/// bytes makes no small packet.
pub proof fn lemma_conn4x_packet_count(data: Seq<u8>)
    ensures
        spec_conn4x_packets(data).len() == big_count(data) + spec_div_up(
            (data.len() % (BIG_BLOCK as nat)) as int,
            BLOCK as int,
        ),
        data.len() % (BIG_BLOCK as nat) == 0 ==> spec_conn4x_packets(data).len() == big_count(data),
        forall|i: int|
            0 <= i < spec_conn4x_packets(data).len() ==> (#[trigger] spec_conn4x_packets(
                data,
            )[i])[0] == if i < big_count(data) {
                STX
            } else {
                SOH
            },
{
    let rest = data.skip(BIG_BLOCK * big_count(data));
    assert(rest.len() == data.len() % (BIG_BLOCK as nat));
    lemma_div_up(rest.len() as int, BLOCK as int);
    let big = Seq::new(big_count(data), |i: int| spec_packet_1k(data, i));
    let small = spec_packets_128(rest, big_count(data) as int, ChecksumMode::Conn4x);
    assert forall|i: int| 0 <= i < spec_conn4x_packets(data).len() implies (
    #[trigger] spec_conn4x_packets(data)[i])[0] == if i < big_count(data) {
        STX
    } else {
        SOH
    } by {
        if i < big_count(data) {
            assert(spec_conn4x_packets(data)[i] == big[i]);
        } else {
            assert(spec_conn4x_packets(data)[i] == small[i - big_count(data)]);
        }
    }
}

/// The sum of `payload` modulo 256.
pub fn additive_checksum(payload: &[u8]) -> (check: u8)
    ensures
        check == additive_check(payload@),
{
    let mut sum: u32 = 0;
    let mut i: usize = 0;
    while i < payload.len()
        invariant
            i <= payload.len(),
            sum == byte_sum(payload@.take(i as int)) % 256,
        decreases payload.len() - i,
    {
        proof {
            assert(payload@.take(i + 1) =~= payload@.take(i as int).push(payload@[i as int]));
            lemma_byte_sum_push(payload@.take(i as int), payload@[i as int]);
        }
        sum = (sum + payload[i] as u32) % 256;
        i += 1;
    }
    assert(payload@.take(payload.len() as int) =~= payload@);
    sum as u8
}

/// Builds the checksum table.
pub fn init_crc_array() -> (table: [u32; 256])
    ensures
        is_crc_table(table@),
{
    let mut crc_array: [u32; 256] = [0;256];
    let mut i: usize = 0;
    let mut crc: u32 = 0;
    while crc < 16
        invariant
            crc <= 16,
            i == crc * 16,
            forall|k: int| 0 <= k < i ==> #[trigger] crc_array@[k] == crc_table_entry(k),
        decreases 16 - crc,
    {
        let mut inp: u32 = 0;
        while inp < 16
            invariant
                crc < 16,
                inp <= 16,
                i == crc * 16 + inp,
                forall|k: int| 0 <= k < i ==> #[trigger] crc_array@[k] == crc_table_entry(k),
            decreases 16 - inp,
        {
            let mixed: u32 = crc ^ inp;
            assert(mixed < 16) by (bit_vector)
                requires
                    mixed == crc ^ inp,
                    crc < 16,
                    inp < 16,
            ;
            crc_array[i] = mixed * 0x1081;
            i += 1;
            inp += 1;
        }
        crc += 1;
    }
    crc_array
}

/// Looking up the table at the low nibble of the checksum and an input
/// nibble, and mixing the entry into the shifted checksum, is one step of
/// the calculator's checksum.
proof fn lemma_table_step(result: u32, n: u32, entry: u32)
    requires
        result < 0x10000,
        n < 16,
        entry == crc_table_entry((((result & 0xf) << 4) + n) as int),
    ensures
        (((result & 0xf) << 4) + n) < 256,
        (result >> 4) ^ entry == crc_step(result, n as u8),
{
    let k: u32 = (result & 0xf) << 4;
    let idx: u32 = (k + n) as u32;
    assert(k + n < 256 && (k + n) as u32 / 16 == result & 0xf && (k + n) as u32 % 16 == n) by (bit_vector)
        requires
            k == (result & 0xf) << 4,
            n < 16,
    ;
    assert(((result & 0xf) ^ n) == ((result ^ n) & 0xf) && ((result & 0xf) ^ n) < 16) by (bit_vector)
        requires
            n < 16,
    ;
    assert((idx as int / 16) as u32 == result & 0xf);
    assert((idx as int % 16) as u32 == n);
    assert(n as u8 as u32 == n);
}

/// The Conn4x checksum of `data`, by table.
pub fn crc_conn4x(crc_array: &[u32; 256], data: &[u8]) -> (result: u32)
    requires
        is_crc_table(crc_array@),
    ensures
        result == conn4x_crc(data@),
        result < 0x10000,
{
    let mut result: u32 = 0;
    let mut i: usize = 0;
    assert(bytes_to_nibbles(data@.take(0)) =~= Seq::<u8>::empty());
    while i < data.len()
        invariant
            i <= data.len(),
            is_crc_table(crc_array@),
            result == conn4x_crc(data@.take(i as int)),
            result < 0x10000,
        decreases data.len() - i,
    {
        let e: u8 = data[i];
        let lo: u32 = e as u32 & 0xf;
        let hi: u32 = e as u32 >> 4;
        proof {
            assert(lo == e % 16 && hi == e / 16 && lo < 16 && hi < 16) by (bit_vector)
                requires
                    lo == e as u32 & 0xf,
                    hi == e as u32 >> 4,
            ;
            let next = data@.take(i + 1);
            assert(next.drop_last() =~= data@.take(i as int));
            assert(next.last() == e);
            lemma_bytes_to_nibbles(next);
            let n0 = bytes_to_nibbles(data@.take(i as int));
            let n1 = n0.push(e % 16);
            let n2 = n1.push(e / 16);
            assert(n1.drop_last() =~= n0);
            assert(n2.drop_last() =~= n1);
            assert(n1.last() == e % 16 && n2.last() == e / 16);
            assert(spec_checksum(n1) == crc_step(spec_checksum(n0), e % 16));
            assert(spec_checksum(n2) == crc_step(spec_checksum(n1), e / 16));
        }
        let k: u32 = (result & 0xf) << 4;
        proof {
            lemma_table_step(result, lo, crc_table_entry((k + lo) as int));
            lemma_crc_step_16_bit(result, lo as u8);
        }
        result = (result >> 4) ^ crc_array[(k + lo) as usize];
        let k2: u32 = (result & 0xf) << 4;
        proof {
            lemma_table_step(result, hi, crc_table_entry((k2 + hi) as int));
            lemma_crc_step_16_bit(result, hi as u8);
        }
        result = (result >> 4) ^ crc_array[(k2 + hi) as usize];
        i += 1;
    }
    assert(data@.take(data.len() as int) =~= data@);
    result
}

/// Appends the check bytes for `payload` to `packet`.
fn push_check(
    packet: &mut Vec<u8>,
    payload: &[u8],
    checksum_mode: ChecksumMode,
    crc_array: &[u32; 256],
)
    requires
        is_crc_table(crc_array@),
    ensures
        final(packet)@ == old(packet)@ + check_bytes(checksum_mode, payload@),
{
    let ghost before = packet@;
    match checksum_mode {
        ChecksumMode::Conn4x => {
            let crc: u32 = crc_conn4x(crc_array, payload);
            let high: u32 = (crc & 0xff00u32) >> 8;
            let low: u32 = crc & 0xffu32;
            assert(high == crc / 256 && low == crc % 256 && high < 256) by (bit_vector)
                requires
                    crc < 0x10000,
                    high == (crc & 0xff00u32) >> 8,
                    low == crc & 0xffu32,
            ;
            packet.push(high as u8);
            packet.push(low as u8);
            assert(packet@ =~= before + check_bytes(checksum_mode, payload@));
        },
        ChecksumMode::Normal => {
            packet.push(additive_checksum(payload));
            assert(packet@ =~= before + check_bytes(checksum_mode, payload@));
        },
    }
}

/// The sequence byte of packet number `index + 1 + offset`.
fn sequence_byte(index: usize, offset: usize) -> (seq: u8)
    ensures
        seq == seq_byte(index + 1 + offset),
{
    ((index % 256 + 1 + offset % 256) % 256) as u8
}

/// Cuts `data` into packets of 128 bytes, the last filled up with `SUB`.
/// The first packet gets the number `packet_count_offset + 1`.
pub fn data_to_128_packets(
    data: &[u8],
    packet_count_offset: usize,
    checksum_mode: ChecksumMode,
) -> (list: Vec<Vec<u8>>)
    ensures
        frames_of(list@) == spec_packets_128(data@, packet_count_offset as int, checksum_mode),
{
    let mut packet_list: Vec<Vec<u8>> = Vec::new();
    let crc_array: [u32; 256] = init_crc_array();
    let packet_count: usize = div_up(data.len(), BLOCK);
    let mut i: usize = 0;
    while i < packet_count
        invariant
            i <= packet_count,
            packet_count == spec_div_up(data.len() as int, BLOCK as int),
            is_crc_table(crc_array@),
            packet_list@.len() == i,
            forall|k: int|
                0 <= k < i ==> (#[trigger] packet_list@[k])@ == spec_packet_128(
                    data@,
                    k,
                    packet_count_offset as int,
                    checksum_mode,
                ),
        decreases packet_count - i,
    {
        proof {
            lemma_div_up(data.len() as int, BLOCK as int);
        }
        let start: usize = i * BLOCK;
        let seq: u8 = sequence_byte(i, packet_count_offset);
        let mut packet: Vec<u8> = Vec::new();
        packet.push(SOH);
        packet.push(seq);
        packet.push(255u8 - seq);
        let mut j: usize = 0;
        while j < BLOCK
            invariant
                j <= BLOCK,
                start < data.len(),
                start == i * BLOCK,
                packet@.len() == 3 + j,
                packet@.take(3) == seq![SOH, seq, (255 - seq) as u8],
                forall|m: int|
                    0 <= m < j ==> #[trigger] packet@[3 + m] == padded_block(
                        data@,
                        start as int,
                    )[m],
            decreases BLOCK - j,
        {
            let ghost before = packet@;
            if j < data.len() - start {
                packet.push(data[start + j]);
            } else {
                packet.push(SUB);
            }
            assert(packet@.take(3) =~= before.take(3));
            j += 1;
        }
        let ghost head = packet@;
        let ghost whole = seq![SOH, seq, (255 - seq) as u8] + padded_block(data@, start as int);
        assert forall|k: int| 0 <= k < head.len() implies head[k] == whole[k] by {
            if k < 3 {
                assert(head.take(3)[k] == head[k]);
            } else {
                assert(head[3 + (k - 3)] == padded_block(data@, start as int)[k - 3]);
            }
        }
        assert(head =~= whole);
        let payload: Vec<u8> = vstd::slice::slice_to_vec(
            slice_subrange(packet.as_slice(), 3, packet.len()),
        );
        assert(payload@ =~= padded_block(data@, start as int));
        push_check(&mut packet, payload.as_slice(), checksum_mode, &crc_array);
        assert(packet@ =~= spec_packet_128(
            data@,
            i as int,
            packet_count_offset as int,
            checksum_mode,
        ));
        packet_list.push(packet);
        i += 1;
    }
    assert(frames_of(packet_list@) =~= spec_packets_128(
        data@,
        packet_count_offset as int,
        checksum_mode,
    ));
    packet_list
}

/// Cuts `data` into Conn4x packets: packets of 1024 bytes as long as that
/// many are left, then packets of 128 bytes.
pub fn data_to_conn4x_packets(data: &[u8]) -> (list: Vec<Vec<u8>>)
    ensures
        frames_of(list@) == spec_conn4x_packets(data@),
{
    let mut packet_list: Vec<Vec<u8>> = Vec::new();
    let crc_array: [u32; 256] = init_crc_array();
    let packet_count: usize = data.len() / BIG_BLOCK;
    let mut i: usize = 0;
    while i < packet_count
        invariant
            i <= packet_count,
            packet_count == big_count(data@),
            packet_count * BIG_BLOCK <= data.len(),
            is_crc_table(crc_array@),
            packet_list@.len() == i,
            forall|k: int| 0 <= k < i ==> (#[trigger] packet_list@[k])@ == spec_packet_1k(data@, k),
        decreases packet_count - i,
    {
        let seq: u8 = sequence_byte(i, 0);
        let mut packet: Vec<u8> = Vec::new();
        packet.push(STX);
        packet.push(seq);
        packet.push(255u8 - seq);
        let block = slice_subrange(data, i * BIG_BLOCK, (i + 1) * BIG_BLOCK);
        let mut j: usize = 0;
        while j < BIG_BLOCK
            invariant
                j <= BIG_BLOCK,
                block@.len() == BIG_BLOCK,
                packet@ == seq![STX, seq, (255 - seq) as u8] + block@.take(j as int),
            decreases BIG_BLOCK - j,
        {
            packet.push(block[j]);
            assert(block@.take(j + 1) =~= block@.take(j as int).push(block@[j as int]));
            j += 1;
        }
        assert(block@.take(BIG_BLOCK as int) =~= block@);
        push_check(&mut packet, block, ChecksumMode::Conn4x, &crc_array);
        assert(packet@ =~= spec_packet_1k(data@, i as int));
        packet_list.push(packet);
        i += 1;
    }
    let rest = slice_subrange(data, packet_count * BIG_BLOCK, data.len());
    assert(rest@ =~= data@.skip(BIG_BLOCK * big_count(data@)));
    let mut packets_128 = data_to_128_packets(rest, packet_count, ChecksumMode::Conn4x);
    let ghost big = frames_of(packet_list@);
    let ghost small = frames_of(packets_128@);
    assert(big =~= Seq::new(big_count(data@), |i: int| spec_packet_1k(data@, i)));
    packet_list.append(&mut packets_128);
    assert(frames_of(packet_list@) =~= big + small);
    packet_list
}

/// Builds the command packet that tells the XModem server what to do with
/// the file `data` names: `P` to take it, `G` to send it.
pub fn create_command_packet(data: &[u8], cmd: char) -> (packet: Vec<u8>)
    requires
        data.len() <= MAX_NAME,
    ensures
        packet@ == spec_command_packet(data@, crate::kermit::char_low_byte(cmd)),
{
    let mut cmd_packet: Vec<u8> = Vec::new();
    cmd_packet.push(crate::kermit::char_byte(cmd));
    cmd_packet.push((data.len() / 256) as u8);
    cmd_packet.push((data.len() % 256) as u8);
    let mut i: usize = 0;
    while i < data.len()
        invariant
            i <= data.len(),
            cmd_packet@ == spec_command_packet(data@, crate::kermit::char_low_byte(cmd)).take(
                3 + i,
            ),
        decreases data.len() - i,
    {
        cmd_packet.push(data[i]);
        assert(cmd_packet@ =~= spec_command_packet(
            data@,
            crate::kermit::char_low_byte(cmd),
        ).take(3 + i + 1));
        i += 1;
    }
    cmd_packet.push(additive_checksum(data));
    assert(cmd_packet@ =~= spec_command_packet(data@, crate::kermit::char_low_byte(cmd)));
    cmd_packet
}

/// What was sent in the normal mode is taken as it was sent: each small
/// packet with the one-byte check is a packet to the receiving side, and
/// its payload is the block of the file that it was made from, filled up
/// with `SUB` where the file ended before.
pub proof fn lemma_packet_is_accepted(data: Seq<u8>, i: int, offset: int)
    requires
        0 <= i,
    ensures
        spec_classify_frame(spec_packet_128(data, i, offset, ChecksumMode::Normal))
            == FrameKind::Data,
        frame_payload(spec_packet_128(data, i, offset, ChecksumMode::Normal)) == padded_block(
            data,
            BLOCK * i,
        ),
{
    let packet = spec_packet_128(data, i, offset, ChecksumMode::Normal);
    let block = padded_block(data, BLOCK * i);
    assert(packet.len() == FRAME_LEN);
    assert(packet[0] == SOH);
    assert(frame_payload(packet) =~= block);
    assert(packet[FRAME_LEN - 1] == additive_check(block));
}

/// Says what the receiving side makes of a frame.
pub fn classify_frame(frame: &[u8]) -> (kind: FrameKind)
    ensures
        kind == spec_classify_frame(frame@),
{
    if frame.len() >= 1 && frame[0] == EOT {
        FrameKind::EndOfTransmission
    } else if frame.len() >= 1 && frame[0] == CAN {
        FrameKind::Cancelled
    } else if frame.len() == FRAME_LEN {
        let payload = slice_subrange(frame, 3, 3 + BLOCK);
        if additive_checksum(payload) == frame[FRAME_LEN - 1] {
            FrameKind::Data
        } else {
            FrameKind::Damaged
        }
    } else {
        FrameKind::Damaged
    }
}

/// What is left of `data` without the zero bytes at its end is a prefix of
/// `data` that is empty or ends in another byte, and all that was taken off
/// is zero.
pub proof fn lemma_trimmed_len(data: Seq<u8>)
    ensures
        trimmed_len(data) <= data.len(),
        trimmed_len(data) > 0 ==> data[trimmed_len(data) - 1] != 0,
        forall|i: int| trimmed_len(data) <= i < data.len() ==> data[i] == 0,
    decreases data.len(),
{
    if data.len() > 0 && data.last() == 0 {
        lemma_trimmed_len(data.drop_last());
        assert forall|i: int| trimmed_len(data) <= i < data.len() implies data[i] == 0 by {
            if i < data.len() - 1 {
                assert(data.drop_last()[i] == data[i]);
            }
        }
    }
}

/// Takes the zero bytes off the end of `data`.
pub fn trim_trailing_zeros(data: &mut Vec<u8>)
    ensures
        final(data)@ == old(data)@.take(trimmed_len(old(data)@) as int),
{
    let mut n: usize = data.len();
    assert(data@.take(n as int) =~= data@);
    while n > 0 && data[n - 1] == 0
        invariant
            n <= data.len(),
            data@ == old(data)@,
            trimmed_len(old(data)@) == trimmed_len(old(data)@.take(n as int)),
        decreases n,
    {
        assert(old(data)@.take(n as int).drop_last() =~= old(data)@.take(n - 1));
        n -= 1;
    }
    data.truncate(n);
}

} // verus!
