//! Kermit packets: printable encoding, block check, control-prefix
//! escaping and the segmentation of a file into data packets.

use crate::error::TransferError;
use crate::helpers::{byte_sum, lemma_byte_sum_push};
use vstd::prelude::*;
use vstd::slice::slice_subrange;

verus! {

/// Start of a packet.
pub const SOH: u8 = 0x01;

/// End of a packet.
pub const CR: u8 = 0x0d;

/// The control prefix, `#`.
pub const PREFIX: u8 = 0x23;

/// Type of a data packet, `D`.
pub const TYPE_DATA: u8 = 0x44;

/// Type of an acknowledgment, `Y`.
pub const TYPE_ACK: u8 = 0x59;

/// Escaped bytes above which a data packet is closed.
pub const PACKET_BUDGET: usize = 84;

/// The most data bytes a packet can hold: the length field, made
/// printable, must fit a byte.
pub const MAX_DATA: usize = 220;

/// Makes a number printable: adds 32.
pub open spec fn to_printable(x: int) -> int {
    x + 32
}

/// Undoes `to_printable`: subtracts 32.
pub open spec fn from_printable(x: int) -> int {
    x - 32
}

/// Toggles the control bit of a byte.
pub open spec fn control_toggle(c: u8) -> u8 {
    c ^ 64
}

/// The low byte of a character's code point.
pub open spec fn char_low_byte(c: char) -> u8 {
    ((c as u32) % 256) as u8
}

/// The block check of type 1 for a sum of bytes: bits 6 and 7 of the sum
/// are added to it, the low six bits of the result are kept and made
/// printable.
pub open spec fn check_of_sum(sum: nat) -> u8 {
    to_printable(((sum + (sum % 256) / 64) % 64) as int) as u8
}

/// The block check of type 1 of a sequence of bytes.
pub open spec fn spec_block_check(s: Seq<u8>) -> u8 {
    check_of_sum(byte_sum(s))
}

/// The bytes of a packet that its check covers: length, sequence, type and
/// data.
pub open spec fn checked_bytes(len: u8, seq: u8, ptype: u8, data: Seq<u8>) -> Seq<u8> {
    seq![len, seq, ptype] + data
}

/// A packet as it goes over the wire: start marker, the checked bytes,
/// their check, end marker.
pub open spec fn packet_wire(len: u8, seq: u8, ptype: u8, data: Seq<u8>) -> Seq<u8> {
    seq![SOH] + checked_bytes(len, seq, ptype, data) + seq![
        spec_block_check(checked_bytes(len, seq, ptype, data)),
        CR,
    ]
}

/// The sequence field of the packet numbered `seq`: the number modulo 64,
/// made printable.
pub open spec fn seq_field(seq: nat) -> u8 {
    to_printable((seq % 64) as int) as u8
}

/// The length field of a packet with `n` bytes of data: sequence, type and
/// check are counted too, and the count is made printable.
pub open spec fn len_field(n: nat) -> u8 {
    to_printable(n as int + 3) as u8
}

/// The packet counter after one more packet; it starts over after the
/// largest value, which leaves the numbering modulo 64 unbroken.
pub open spec fn next_seq(seq: u32) -> u32 {
    if seq == u32::MAX {
        0
    } else {
        (seq + 1) as u32
    }
}

/// The packet counter after `n` more packets.
pub open spec fn advance_seq(seq: u32, n: nat) -> u32 {
    ((seq + n) % 0x1_0000_0000) as u32
}

/// A Kermit packet without its markers and its check.
pub struct KermitPacket {
    /// The length field: bytes that follow it up to the check, made
    /// printable.
    pub len: u8,
    /// The sequence field: the packet's number modulo 64, made printable.
    pub seq: u8,
    /// The packet's type.
    pub ptype: u8,
    /// The data field, escaped.
    pub data: Vec<u8>,
}

/// A Kermit packet with its data as a sequence.
pub struct PacketView {
    /// The length field.
    pub len: u8,
    /// The sequence field.
    pub seq: u8,
    /// The packet's type.
    pub ptype: u8,
    /// The data field, escaped.
    pub data: Seq<u8>,
}

impl View for KermitPacket {
    type V = PacketView;

    open spec fn view(&self) -> PacketView {
        PacketView { len: self.len, seq: self.seq, ptype: self.ptype, data: self.data@ }
    }
}

impl PacketView {
    /// The packet as it goes over the wire.
    pub open spec fn wire(self) -> Seq<u8> {
        packet_wire(self.len, self.seq, self.ptype, self.data)
    }

    /// The check that the packet carries on the wire.
    pub open spec fn check(self) -> u8 {
        spec_block_check(checked_bytes(self.len, self.seq, self.ptype, self.data))
    }

    /// The length field counts the data that is there.
    pub open spec fn well_formed(self) -> bool {
        &&& self.data.len() <= MAX_DATA
        &&& self.len == len_field(self.data.len())
    }
}

/// Makes a number printable.
pub fn tochar(c: u8) -> (r: u8)
    requires
        c <= 223,
    ensures
        r == to_printable(c as int),
{
    c + 32
}

/// Undoes `tochar`.
pub fn unchar(c: u8) -> (r: u8)
    requires
        c >= 32,
    ensures
        r == from_printable(c as int),
{
    c - 32
}

/// Toggles the control bit of a byte.
pub fn ctl(c: u8) -> (r: u8)
    ensures
        r == control_toggle(c),
{
    c ^ 64
}

/// Toggling the control bit twice gives the byte back.
pub proof fn lemma_control_toggle_twice(c: u8)
    ensures
        control_toggle(control_toggle(c)) == c,
{
    assert((c ^ 64) ^ 64 == c) by (bit_vector);
}

/// The block check in the bit operations that the protocol manual gives.
pub proof fn lemma_check_in_bit_operations(sum: u32)
    requires
        sum <= 0xffff_fff0,
    ensures
        check_of_sum(sum as nat) == to_printable(
            ((((sum + ((sum & 192) >> 6)) as u32) & 63) as int),
        ),
{
    assert((sum + (sum % 256u32) / 64u32) % 64 == (((sum + ((sum & 192u32) >> 6u32)) as u32)
        & 63u32)) by (bit_vector)
        requires
            sum <= 0xffff_fff0,
    ;
}

/// The block check depends on the sum modulo 256 alone.
proof fn lemma_check_of_reduced_sum(sum: nat)
    ensures
        check_of_sum(sum) == check_of_sum(sum % 256),
{
    let r = sum % 256;
    let q = sum / 256;
    assert(sum == 256 * q + r);
    assert((sum + r / 64) % 64 == (r + r / 64) % 64) by {
        assert(sum + r / 64 == 64 * (4 * q) + (r + r / 64));
        vstd::arithmetic::div_mod::lemma_mod_multiples_vanish(4 * q as int, (r + r / 64) as int, 64);
    }
    assert(r % 256 == r);
}

/// The block check of a packet with no data, where length, sequence and
/// type add up to a multiple of 256: it is the printable zero, 32. (For a
/// sum that is a multiple of 64 and not of 256, bits 6 and 7 of the sum are
/// not both clear and the check is larger.)
pub proof fn lemma_check_of_empty_packet(len: u8, seq: u8, ptype: u8)
    requires
        (len + seq + ptype) % 64 == 0,
        (len + seq + ptype) % 256 == 0,
    ensures
        spec_block_check(checked_bytes(len, seq, ptype, Seq::empty())) == to_printable(0),
{
    let s = checked_bytes(len, seq, ptype, Seq::empty());
    assert(s =~= seq![len, seq, ptype]);
    lemma_byte_sum_three(len, seq, ptype);
}

/// The sum of three bytes.
proof fn lemma_byte_sum_three(a: u8, b: u8, c: u8)
    ensures
        byte_sum(seq![a, b, c]) == a + b + c,
{
    let s0 = Seq::<u8>::empty();
    assert(byte_sum(s0) == 0);
    lemma_byte_sum_push(s0, a);
    lemma_byte_sum_push(s0.push(a), b);
    lemma_byte_sum_push(s0.push(a).push(b), c);
    assert(seq![a, b, c] =~= s0.push(a).push(b).push(c));
}

/// Computes the block check of type 1 over `data`.
pub fn block_check_1(data: &[u8]) -> (check: u8)
    ensures
        check == spec_block_check(data@),
        32 <= check <= 95,
{
    let mut s: u32 = 0;
    let mut i: usize = 0;
    while i < data.len()
        invariant
            i <= data.len(),
            s == byte_sum(data@.take(i as int)) % 256,
        decreases data.len() - i,
    {
        proof {
            assert(data@.take(i + 1) =~= data@.take(i as int).push(data@[i as int]));
            lemma_byte_sum_push(data@.take(i as int), data@[i as int]);
        }
        s = (s + data[i] as u32) % 256;
        i += 1;
    }
    proof {
        assert(data@.take(data.len() as int) =~= data@);
        lemma_check_of_reduced_sum(byte_sum(data@));
        lemma_check_in_bit_operations(s);
    }
    let bits: u32 = (s & 192) / 64;
    assert(bits == (s & 192u32) >> 6u32 && bits <= 3) by (bit_vector)
        requires
            bits == (s & 192u32) / 64,
    ;
    let folded: u32 = (s + bits) & 63;
    assert(folded <= 63) by (bit_vector)
        requires
            folded == ((s + bits) as u32) & 63u32,
    ;
    tochar(folded as u8)
}

impl KermitPacket {
    /// The check that the packet carries on the wire, computed over length,
    /// sequence, type and data.
    pub fn calc_check(&self) -> (check: u8)
        ensures
            check == self@.check(),
    {
        let mut covered: Vec<u8> = Vec::new();
        covered.push(self.len);
        covered.push(self.seq);
        covered.push(self.ptype);
        let mut i: usize = 0;
        while i < self.data.len()
            invariant
                i <= self.data.len(),
                covered@ == seq![self.len, self.seq, self.ptype] + self.data@.take(i as int),
            decreases self.data.len() - i,
        {
            covered.push(self.data[i]);
            assert(self.data@.take(i + 1) =~= self.data@.take(i as int).push(self.data@[i as int]));
            i += 1;
        }
        assert(self.data@.take(self.data.len() as int) =~= self.data@);
        block_check_1(covered.as_slice())
    }

    /// The whole packet as it goes over the wire, check and end marker
    /// included.
    pub fn to_vec(&self) -> (p: Vec<u8>)
        ensures
            p@ == self@.wire(),
    {
        let check = self.calc_check();
        let mut p: Vec<u8> = Vec::new();
        p.push(SOH);
        p.push(self.len);
        p.push(self.seq);
        p.push(self.ptype);
        let mut i: usize = 0;
        while i < self.data.len()
            invariant
                i <= self.data.len(),
                p@ == seq![SOH, self.len, self.seq, self.ptype] + self.data@.take(i as int),
            decreases self.data.len() - i,
        {
            p.push(self.data[i]);
            assert(self.data@.take(i + 1) =~= self.data@.take(i as int).push(self.data@[i as int]));
            i += 1;
        }
        assert(self.data@.take(self.data.len() as int) =~= self.data@);
        p.push(check);
        p.push(CR);
        assert(p@ =~= self@.wire());
        p
    }
}

/// The data of a send-init packet: longest packet 94, timeout 2 s, no
/// padding, padding character NUL, end of line CR, control prefix `#`,
/// eighth-bit prefix `Y` (none needed), block check of type 1.
pub open spec fn init_params() -> Seq<u8> {
    seq![126u8, 34u8, 32u8, 64u8, 45u8, 35u8, 89u8, 49u8]
}

/// Whether a byte must be sent with the control prefix: its low seven bits
/// are a control character, DEL, or the prefix itself.
pub open spec fn needs_prefix(c: u8) -> bool {
    (c & 0x7f) <= 31 || (c & 0x7f) == 127 || (c & 0x7f) == PREFIX
}

/// A byte as it is sent in a data field: behind the prefix with its
/// control bit toggled, or as it stands.
pub open spec fn escape_byte(c: u8) -> Seq<u8> {
    if needs_prefix(c) {
        seq![PREFIX, control_toggle(c)]
    } else {
        seq![c]
    }
}

/// File bytes as they are sent in data fields.
pub open spec fn escape(data: Seq<u8>) -> Seq<u8>
    decreases data.len(),
{
    if data.len() == 0 {
        Seq::empty()
    } else {
        escape_byte(data[0]) + escape(data.skip(1))
    }
}

/// The file bytes that a data field stands for: a byte behind the prefix
/// has its control bit toggled back. `None` where the field ends with a
/// prefix that nothing follows.
pub open spec fn spec_unescape(field: Seq<u8>) -> Option<Seq<u8>>
    decreases field.len(),
{
    if field.len() == 0 {
        Some(Seq::empty())
    } else if field[0] == PREFIX {
        if field.len() < 2 {
            None
        } else {
            match spec_unescape(field.skip(2)) {
                Some(rest) => Some(seq![control_toggle(field[1])] + rest),
                None => None,
            }
        }
    } else {
        match spec_unescape(field.skip(1)) {
            Some(rest) => Some(seq![field[0]] + rest),
            None => None,
        }
    }
}

/// The data packet numbered `seq` with the escaped bytes `data`.
pub open spec fn data_packet(data: Seq<u8>, seq: nat) -> PacketView {
    PacketView { len: len_field(data.len()), seq: seq_field(seq), ptype: TYPE_DATA, data }
}

/// The data packets for `data`, where `pending` is what the open packet
/// holds already and `seq` is that packet's number. Each byte joins the open
/// packet in its escaped form; the packet is closed once it holds more than
/// `PACKET_BUDGET` bytes, and at the end of the data if it holds any.
pub open spec fn spec_packets_from(data: Seq<u8>, pending: Seq<u8>, seq: nat) -> Seq<PacketView>
    decreases data.len(),
{
    if data.len() == 0 {
        if pending.len() == 0 {
            Seq::empty()
        } else {
            seq![data_packet(pending, seq)]
        }
    } else {
        let grown = pending + escape_byte(data[0]);
        if grown.len() > PACKET_BUDGET {
            seq![data_packet(grown, seq)] + spec_packets_from(data.skip(1), Seq::empty(), seq + 1)
        } else {
            spec_packets_from(data.skip(1), grown, seq)
        }
    }
}

/// The data packets for a file, the first of them numbered `seq`.
pub open spec fn spec_packet_list(data: Seq<u8>, seq: nat) -> Seq<PacketView> {
    spec_packets_from(data, Seq::empty(), seq)
}

/// The data fields of a list of packets, joined.
pub open spec fn joined_data(packets: Seq<PacketView>) -> Seq<u8>
    decreases packets.len(),
{
    if packets.len() == 0 {
        Seq::empty()
    } else {
        packets[0].data + joined_data(packets.skip(1))
    }
}

/// The views of a list of packets.
pub open spec fn packet_views(packets: Seq<KermitPacket>) -> Seq<PacketView> {
    packets.map_values(|p: KermitPacket| p@)
}

/// What holds of the data packets for a file: their data fields, joined,
/// are the open packet's bytes and then the escaped file, so nothing is
/// lost and nothing added; each is a data packet whose length field counts
/// its data and whose number follows its predecessor's modulo 64; each
/// holds at least one byte and at most two more than the budget; and each
/// but the last holds more than the budget.
pub proof fn lemma_packets_from(data: Seq<u8>, pending: Seq<u8>, seq: nat)
    requires
        pending.len() <= PACKET_BUDGET,
    ensures
        joined_data(spec_packets_from(data, pending, seq)) == pending + escape(data),
        spec_packets_from(data, pending, seq).len() <= data.len() + 1,
        pending.len() == 0 ==> spec_packets_from(data, pending, seq).len() <= data.len(),
        forall|i: int|
            0 <= i < spec_packets_from(data, pending, seq).len() ==> {
                let p = #[trigger] spec_packets_from(data, pending, seq)[i];
                &&& p == data_packet(p.data, seq + i as nat)
                &&& p.well_formed()
                &&& 1 <= p.data.len() <= PACKET_BUDGET + 2
                &&& i + 1 < spec_packets_from(data, pending, seq).len() ==> p.data.len()
                    > PACKET_BUDGET
            },
    decreases data.len(),
{
    let ps = spec_packets_from(data, pending, seq);
    if data.len() == 0 {
        assert(escape(data) =~= Seq::<u8>::empty());
        if pending.len() == 0 {
            assert(joined_data(ps) =~= pending + escape(data));
        } else {
            assert(ps.skip(1) =~= Seq::<PacketView>::empty());
            assert(joined_data(ps.skip(1)) =~= Seq::<u8>::empty());
            assert(joined_data(ps) =~= pending + escape(data));
        }
    } else {
        let grown = pending + escape_byte(data[0]);
        if grown.len() > PACKET_BUDGET {
            let rest = spec_packets_from(data.skip(1), Seq::empty(), seq + 1);
            lemma_packets_from(data.skip(1), Seq::empty(), seq + 1);
            assert(ps.skip(1) =~= rest);
            assert(joined_data(ps) =~= pending + escape(data));
            assert forall|i: int| 0 <= i < ps.len() implies {
                let p = #[trigger] ps[i];
                &&& p == data_packet(p.data, seq + i as nat)
                &&& p.well_formed()
                &&& 1 <= p.data.len() <= PACKET_BUDGET + 2
                &&& i + 1 < ps.len() ==> p.data.len() > PACKET_BUDGET
            } by {
                if i > 0 {
                    assert(ps[i] == rest[i - 1]);
                }
            }
        } else {
            lemma_packets_from(data.skip(1), grown, seq);
            assert(joined_data(ps) =~= pending + escape(data));
        }
    }
}

/// Unescaping gives back what was escaped.
pub proof fn lemma_unescape_escape(data: Seq<u8>)
    ensures
        spec_unescape(escape(data)) == Some(data),
    decreases data.len(),
{
    if data.len() > 0 {
        let c = data[0];
        let rest = escape(data.skip(1));
        lemma_unescape_escape(data.skip(1));
        lemma_control_toggle_twice(c);
        if needs_prefix(c) {
            assert(escape(data).skip(2) =~= rest);
        } else {
            assert(c != PREFIX) by {
                assert((c & 0x7f) != 0x23 ==> c != 0x23) by (bit_vector);
            }
            assert(escape(data).skip(1) =~= rest);
        }
        assert(seq![c] + data.skip(1) =~= data);
    }
}

/// Escaping goes byte by byte: the escaped form of two sequences joined is
/// their escaped forms joined.
pub proof fn lemma_escape_concat(a: Seq<u8>, b: Seq<u8>)
    ensures
        escape(a + b) == escape(a) + escape(b),
    decreases a.len(),
{
    if a.len() == 0 {
        assert(a + b =~= b);
        assert(escape(a) + escape(b) =~= escape(b));
    } else {
        lemma_escape_concat(a.skip(1), b);
        assert((a + b).skip(1) =~= a.skip(1) + b);
        assert((a + b)[0] == a[0]);
        assert(escape(a + b) =~= escape(a) + escape(b));
    }
}

/// The file bytes that a list of data packets stands for: each data field
/// is unescaped by itself, as the receiving side does, and the results are
/// joined. `None` where a field ends with a prefix that nothing follows.
pub open spec fn unescape_all(packets: Seq<PacketView>) -> Option<Seq<u8>>
    decreases packets.len(),
{
    if packets.len() == 0 {
        Some(Seq::empty())
    } else {
        match spec_unescape(packets[0].data) {
            Some(bytes) => prepend(bytes, unescape_all(packets.skip(1))),
            None => None,
        }
    }
}

/// No escape pair is cut in two: where the open packet holds the escaped
/// form of `done`, the packets for `data` stand, unescaped one by one, for
/// `done` and then `data`.
pub proof fn lemma_unescape_packets_from(data: Seq<u8>, done: Seq<u8>, seq: nat)
    ensures
        unescape_all(spec_packets_from(data, escape(done), seq)) == Some(done + data),
    decreases data.len(),
{
    let pending = escape(done);
    let ps = spec_packets_from(data, pending, seq);
    let nothing = Seq::<u8>::empty();
    lemma_unescape_escape(done);
    if data.len() == 0 {
        assert(done + data =~= done);
        if pending.len() == 0 {
            if done.len() > 0 {
                assert(escape(done).len() >= escape_byte(done[0]).len());
            }
            assert(done =~= nothing);
            assert(unescape_all(ps) == Some(nothing));
        } else {
            assert(ps[0].data == pending);
            assert(ps.skip(1) =~= Seq::<PacketView>::empty());
            assert(unescape_all(ps.skip(1)) == Some(nothing));
            assert(done + nothing =~= done);
            assert(unescape_all(ps) == Some(done));
        }
    } else {
        let first = seq![data[0]];
        let grown = pending + escape_byte(data[0]);
        assert(escape(first) =~= escape_byte(data[0])) by {
            assert(first.skip(1) =~= nothing);
            assert(escape(first.skip(1)) =~= nothing);
        }
        lemma_escape_concat(done, first);
        assert(grown == escape(done + first));
        assert((done + first) + data.skip(1) =~= done + data);
        if grown.len() > PACKET_BUDGET {
            assert(escape(nothing) =~= nothing);
            lemma_unescape_packets_from(data.skip(1), nothing, seq + 1);
            lemma_unescape_escape(done + first);
            let rest = spec_packets_from(data.skip(1), nothing, seq + 1);
            assert(ps =~= seq![data_packet(grown, seq)] + rest);
            assert(ps[0].data == grown);
            assert(ps.skip(1) =~= rest);
            assert(nothing + data.skip(1) =~= data.skip(1));
            assert(unescape_all(rest) == Some(data.skip(1)));
            assert(unescape_all(ps) == Some((done + first) + data.skip(1)));
        } else {
            lemma_unescape_packets_from(data.skip(1), done + first, seq);
            assert(ps == spec_packets_from(data.skip(1), grown, seq));
        }
    }
}

/// What the receiving side makes of the data packets of a file is the
/// file.
pub proof fn lemma_packet_list_round_trip(data: Seq<u8>, seq: nat)
    ensures
        unescape_all(spec_packet_list(data, seq)) == Some(data),
{
    let nothing = Seq::<u8>::empty();
    assert(escape(nothing) =~= nothing);
    lemma_unescape_packets_from(data, nothing, seq);
    assert(nothing + data =~= data);
}

/// The low byte of a character's code point.
pub fn char_byte(c: char) -> (b: u8)
    ensures
        b == char_low_byte(c),
{
    (c as u32 % 256) as u8
}

/// The sequence field for the packet counter.
fn seq_char(seq: u32) -> (r: u8)
    ensures
        r == seq_field(seq as nat),
{
    tochar((seq % 64) as u8)
}

/// Counts one more packet.
fn bump(seq: &mut u32)
    ensures
        *final(seq) == next_seq(*old(seq)),
{
    if *seq == u32::MAX {
        *seq = 0;
    } else {
        *seq = *seq + 1;
    }
}

/// Counting packets one by one and at once come to the same, and the
/// sequence field does not notice where the counter starts over.
pub proof fn lemma_advance_seq(seq: u32, n: nat)
    ensures
        advance_seq(seq, 0) == seq,
        next_seq(advance_seq(seq, n)) == advance_seq(seq, n + 1),
        seq_field(advance_seq(seq, n) as nat) == seq_field(seq as nat + n),
{
    let total = seq as nat + n;
    let q = total / 0x1_0000_0000;
    let r = total % 0x1_0000_0000;
    assert(total == 0x1_0000_0000 * q + r);
    assert(total == 64 * (0x400_0000 * q) + r);
    vstd::arithmetic::div_mod::lemma_mod_multiples_vanish((0x400_0000 * q) as int, r as int, 64);
}

/// Makes a send-init packet of type `ptype` (`S`, `I`, or `Y` in reply to
/// one) and counts it.
pub fn make_init_packet(seq: &mut u32, ptype: char) -> (p: Vec<u8>)
    ensures
        p@ == packet_wire(
            len_field(8),
            seq_field(*old(seq) as nat),
            char_low_byte(ptype),
            init_params(),
        ),
        *final(seq) == next_seq(*old(seq)),
{
    let packet_data: Vec<u8> = vec![
        tochar(94),
        tochar(2),
        tochar(0),
        ctl(0),
        tochar(CR),
        PREFIX,
        0x59u8,
        0x31u8,
    ];
    assert(control_toggle(0) == 64) by {
        assert(0u8 ^ 64u8 == 64u8) by (bit_vector);
    }
    assert(packet_data@ =~= init_params());
    let s_packet = KermitPacket {
        len: tochar(11),
        seq: seq_char(*seq),
        ptype: char_byte(ptype),
        data: packet_data,
    };
    bump(seq);
    s_packet.to_vec()
}

/// Makes a file-header packet that carries the name `fname`, and counts it.
pub fn make_f_packet(seq: &mut u32, fname: &[u8]) -> (p: Vec<u8>)
    requires
        fname.len() <= MAX_DATA,
    ensures
        p@ == packet_wire(
            len_field(fname@.len()),
            seq_field(*old(seq) as nat),
            0x46,
            fname@,
        ),
        *final(seq) == next_seq(*old(seq)),
{
    let f_packet = KermitPacket {
        len: tochar((fname.len() + 2 + 1) as u8),
        seq: seq_char(*seq),
        ptype: 0x46,
        data: vstd::slice::slice_to_vec(fname),
    };
    bump(seq);
    f_packet.to_vec()
}

/// Makes a packet of type `ptype` without data, and counts it.
pub fn make_generic_packet(seq: &mut u32, ptype: char) -> (p: Vec<u8>)
    ensures
        p@ == packet_wire(
            len_field(0),
            seq_field(*old(seq) as nat),
            char_low_byte(ptype),
            Seq::empty(),
        ),
        *final(seq) == next_seq(*old(seq)),
{
    let packet = KermitPacket {
        len: tochar(3u8),
        seq: seq_char(*seq),
        ptype: char_byte(ptype),
        data: Vec::new(),
    };
    bump(seq);
    packet.to_vec()
}

/// Cuts a file into data packets, escaping its bytes, and counts the
/// packets. The first packet gets the number in `seq`.
pub fn make_packet_list(f: &[u8], seq: &mut u32) -> (list: Vec<KermitPacket>)
    ensures
        packet_views(list@) == spec_packet_list(f@, *old(seq) as nat),
        *final(seq) == advance_seq(*old(seq), list@.len()),
        joined_data(packet_views(list@)) == escape(f@),
        list@.len() <= f@.len(),
        forall|i: int|
            0 <= i < list@.len() ==> {
                let p = (#[trigger] list@[i])@;
                &&& p == data_packet(p.data, *old(seq) as nat + i as nat)
                &&& p.well_formed()
                &&& 1 <= p.data.len() <= PACKET_BUDGET + 2
                &&& i + 1 < list@.len() ==> p.data.len() > PACKET_BUDGET
            },
{
    let mut packet_list: Vec<KermitPacket> = Vec::new();
    let mut packet_data: Vec<u8> = Vec::new();
    let ghost seq0: u32 = *seq;
    let mut i: usize = 0;
    proof {
        lemma_advance_seq(seq0, 0);
        assert(f@.skip(0) =~= f@);
        assert(packet_views(packet_list@) =~= Seq::<PacketView>::empty());
        assert(packet_views(packet_list@) + spec_packets_from(
            f@,
            Seq::empty(),
            seq0 as nat,
        ) =~= spec_packet_list(f@, seq0 as nat));
    }
    while i < f.len()
        invariant
            i <= f.len(),
            packet_data@.len() <= PACKET_BUDGET,
            *seq == advance_seq(seq0, packet_list@.len()),
            spec_packet_list(f@, seq0 as nat) == packet_views(packet_list@) + spec_packets_from(
                f@.skip(i as int),
                packet_data@,
                seq0 as nat + packet_list@.len(),
            ),
        decreases f.len() - i,
    {
        let c: u8 = f[i];
        let low: u8 = c & 0x7f;
        let ghost before = packet_data@;
        let ghost done = packet_views(packet_list@);
        proof {
            assert(f@.skip(i as int)[0] == c);
            assert(f@.skip(i as int).skip(1) =~= f@.skip(i + 1));
        }
        if low <= 31 || low == 127 || low == PREFIX {
            packet_data.push(PREFIX);
            packet_data.push(ctl(c));
        } else {
            packet_data.push(c);
        }
        assert(packet_data@ =~= before + escape_byte(c));
        if packet_data.len() > PACKET_BUDGET {
            proof {
                lemma_advance_seq(seq0, packet_list@.len());
            }
            let packet = KermitPacket {
                len: tochar(packet_data.len() as u8 + 3),
                seq: seq_char(*seq),
                ptype: TYPE_DATA,
                data: packet_data,
            };
            assert(packet@ == data_packet(before + escape_byte(c), seq0 as nat + done.len()));
            packet_list.push(packet);
            bump(seq);
            packet_data = Vec::new();
            proof {
                assert(packet_views(packet_list@) =~= done.push(packet@));
                assert(spec_packet_list(f@, seq0 as nat) =~= packet_views(packet_list@)
                    + spec_packets_from(
                    f@.skip(i + 1),
                    packet_data@,
                    seq0 as nat + packet_list@.len(),
                ));
            }
        }
        i += 1;
    }
    let ghost done = packet_views(packet_list@);
    proof {
        assert(f@.skip(f@.len() as int).len() == 0);
    }
    if packet_data.len() != 0 {
        proof {
            lemma_advance_seq(seq0, packet_list@.len());
        }
        let packet = KermitPacket {
            len: tochar(packet_data.len() as u8 + 3),
            seq: seq_char(*seq),
            ptype: TYPE_DATA,
            data: packet_data,
        };
        packet_list.push(packet);
        bump(seq);
        proof {
            assert(packet_views(packet_list@) =~= done.push(packet@));
        }
    }
    proof {
        assert(packet_views(packet_list@) =~= spec_packet_list(f@, seq0 as nat));
        lemma_packets_from(f@, Seq::empty(), seq0 as nat);
        assert(Seq::<u8>::empty() + escape(f@) =~= escape(f@));
        assert(packet_views(packet_list@).len() == packet_list@.len());
        assert forall|i: int| 0 <= i < packet_list@.len() implies {
            let p = (#[trigger] packet_list@[i])@;
            &&& p == data_packet(p.data, seq0 as nat + i as nat)
            &&& p.well_formed()
            &&& 1 <= p.data.len() <= PACKET_BUDGET + 2
            &&& i + 1 < packet_list@.len() ==> p.data.len() > PACKET_BUDGET
        } by {
            assert(packet_list@[i]@ == spec_packet_list(f@, seq0 as nat)[i]);
        }
    }
    packet_list
}

/// Takes the escaping off a data field. `None` where the field ends with a
/// prefix that nothing follows.
pub fn unescape(field: &[u8]) -> (r: Option<Vec<u8>>)
    ensures
        match r {
            Some(bytes) => spec_unescape(field@) == Some(bytes@),
            None => spec_unescape(field@) is None,
        },
{
    let mut bytes: Vec<u8> = Vec::new();
    let mut i: usize = 0;
    proof {
        assert(field@.skip(0) =~= field@);
        lemma_unescape_prepend(Seq::empty(), field@);
    }
    while i < field.len()
        invariant
            i <= field.len(),
            spec_unescape(field@) == prepend(bytes@, spec_unescape(field@.skip(i as int))),
        decreases field.len() - i,
    {
        let c: u8 = field[i];
        let ghost rest = field@.skip(i as int);
        let ghost before = bytes@;
        assert(rest[0] == c);
        if c == PREFIX {
            if field.len() - i < 2 {
                return None;
            }
            bytes.push(ctl(field[i + 1]));
            proof {
                assert(rest[1] == field@[i + 1]);
                assert(rest.skip(2) =~= field@.skip(i + 2));
                lemma_prepend_push(before, control_toggle(rest[1]), spec_unescape(rest.skip(2)));
            }
            i += 2;
        } else {
            bytes.push(c);
            proof {
                assert(rest.skip(1) =~= field@.skip(i + 1));
                lemma_prepend_push(before, c, spec_unescape(rest.skip(1)));
            }
            i += 1;
        }
    }
    proof {
        assert(field@.skip(field@.len() as int).len() == 0);
        assert(bytes@ + Seq::<u8>::empty() =~= bytes@);
    }
    Some(bytes)
}

/// `head` put before what was unescaped, if anything was.
pub open spec fn prepend(head: Seq<u8>, tail: Option<Seq<u8>>) -> Option<Seq<u8>> {
    match tail {
        Some(rest) => Some(head + rest),
        None => None,
    }
}

/// Putting nothing before a result leaves it as it is.
proof fn lemma_unescape_prepend(head: Seq<u8>, field: Seq<u8>)
    requires
        head.len() == 0,
    ensures
        prepend(head, spec_unescape(field)) == spec_unescape(field),
{
    match spec_unescape(field) {
        Some(rest) => {
            assert(head + rest =~= rest);
        },
        None => {},
    }
}

/// Putting `head` before a result that starts with `b` is putting `head`
/// and `b` before the rest.
proof fn lemma_prepend_push(head: Seq<u8>, b: u8, tail: Option<Seq<u8>>)
    ensures
        prepend(head, prepend(seq![b], tail)) == prepend(head.push(b), tail),
{
    match tail {
        Some(rest) => {
            assert(head + (seq![b] + rest) =~= head.push(b) + rest);
        },
        None => {},
    }
}

/// How many bytes follow the three-byte header of an inbound packet: type,
/// data, check and end marker. The header must start with the start marker
/// and its length field must leave room for type, check and end marker.
pub open spec fn spec_body_len(header: Seq<u8>) -> Result<nat, TransferError> {
    if header.len() != 3 || header[0] != SOH || header[1] < 35 {
        Err(TransferError::ProtocolViolation)
    } else {
        Ok(from_printable(header[1] as int) as nat)
    }
}

/// The packet in a header and the bytes that followed it. The body must be
/// as long as the header says, and the check it carries must be the check
/// of the packet.
pub open spec fn spec_parse_packet(header: Seq<u8>, body: Seq<u8>) -> Result<
    PacketView,
    TransferError,
> {
    match spec_body_len(header) {
        Err(e) => Err(e),
        Ok(n) => {
            let packet = PacketView {
                len: header[1],
                seq: header[2],
                ptype: body[0],
                data: body.subrange(1, n - 2),
            };
            if body.len() != n {
                Err(TransferError::ProtocolViolation)
            } else if body[n - 2] != packet.check() {
                Err(TransferError::ChecksumMismatch)
            } else {
                Ok(packet)
            }
        },
    }
}

/// Reads from the header of an inbound packet how many bytes follow it.
pub fn packet_body_len(header: &[u8]) -> (r: Result<usize, TransferError>)
    ensures
        match r {
            Ok(n) => spec_body_len(header@) == Ok::<nat, TransferError>(n as nat) && 3 <= n <= 223,
            Err(e) => spec_body_len(header@) == Err::<nat, TransferError>(e),
        },
{
    if header.len() != 3 || header[0] != SOH || header[1] < 35 {
        return Err(TransferError::ProtocolViolation);
    }
    Ok(unchar(header[1]) as usize)
}

/// Takes an inbound packet apart and verifies its check.
pub fn parse_packet(header: &[u8], body: &[u8]) -> (r: Result<KermitPacket, TransferError>)
    ensures
        match r {
            Ok(packet) => spec_parse_packet(header@, body@) == Ok::<PacketView, TransferError>(
                packet@,
            ),
            Err(e) => spec_parse_packet(header@, body@) == Err::<PacketView, TransferError>(e),
        },
{
    let len: usize = match packet_body_len(header) {
        Ok(n) => n,
        Err(e) => {
            return Err(e);
        },
    };
    if body.len() != len {
        return Err(TransferError::ProtocolViolation);
    }
    let data_field = slice_subrange(body, 1, len - 2);
    let packet = KermitPacket {
        len: header[1],
        seq: header[2],
        ptype: body[0],
        data: vstd::slice::slice_to_vec(data_field),
    };
    let rx_checksum: u8 = body[len - 2];
    if rx_checksum != packet.calc_check() {
        return Err(TransferError::ChecksumMismatch);
    }
    Ok(packet)
}

/// A packet that was written is read back as it was: the first three bytes
/// of a well-formed packet's wire form are a header, the rest is the body
/// that the header announces, and together they parse to the packet.
pub proof fn lemma_parse_wire(packet: PacketView)
    requires
        packet.well_formed(),
    ensures
        spec_body_len(packet.wire().take(3)) == Ok::<nat, TransferError>(packet.data.len() + 3),
        spec_parse_packet(packet.wire().take(3), packet.wire().skip(3)) == Ok::<
            PacketView,
            TransferError,
        >(packet),
{
    let wire = packet.wire();
    let header = wire.take(3);
    let body = wire.skip(3);
    let n = packet.data.len() + 3;
    assert(wire.len() == n + 3);
    assert(header[0] == SOH && header[1] == packet.len && header[2] == packet.seq);
    assert(body[0] == packet.ptype);
    assert(body.subrange(1, n - 2) =~= packet.data);
    assert(body[n - 2] == packet.check());
}

} // verus!
