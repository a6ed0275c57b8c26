//! The Kermit sessions: what to write and read next, given what came back.
//!
//! The sending side writes the send-init packet, the file header, the data
//! packets, the end of file and the end of transmission, and reads an
//! acknowledgment after each. The receiving side reads the same packets
//! and acknowledges each. Nothing is tried twice: a packet that does not
//! parse, fails its check or is not of the type that is due ends the
//! session.

use crate::error::TransferError;
use crate::kermit::{
    init_params, len_field, lemma_advance_seq, make_f_packet, make_generic_packet,
    make_init_packet, make_packet_list, next_seq, packet_body_len, packet_views, packet_wire,
    parse_packet, seq_field, spec_body_len, spec_packet_list, spec_parse_packet, spec_unescape,
    unescape, KermitPacket, PacketView, CR, MAX_DATA, SOH, TYPE_ACK, TYPE_DATA,
};
use crate::transport::{
    frames_of, read_after, write_after, write_now, Action, ActionView, Event, EventView,
};
use vstd::prelude::*;
use vstd::slice::slice_to_vec;

verus! {

/// Type of a send-init packet, `S`.
pub const TYPE_SEND_INIT: u8 = 0x53;

/// Type of a file-header packet, `F`.
pub const TYPE_FILE_HEADER: u8 = 0x46;

/// Type of an end-of-file packet, `Z`.
pub const TYPE_EOF: u8 = 0x5a;

/// Type of an end-of-transmission packet, `B`.
pub const TYPE_EOT: u8 = 0x42;

/// Type of an init-info packet, `I`.
pub const TYPE_INFO: u8 = 0x49;

/// Type of a generic server command, `G`.
pub const TYPE_GENERIC: u8 = 0x47;

/// The generic command that tells the server to finish, `F`.
pub const GENERIC_FINISH: u8 = 0x46;

/// Bytes of a packet that are read first: start marker, length, sequence.
pub const HEADER_LEN: usize = 3;

/// Milliseconds to wait before a packet's header is read.
pub const HEADER_SETTLE_MS: u64 = 300;

/// Milliseconds to wait before the rest of a packet is read.
pub const BODY_SETTLE_MS: u64 = 50;

/// Milliseconds to wait before the end of transmission, the server's
/// finish command, or the answer to a send-init packet is written.
pub const WRITE_SETTLE_MS: u64 = 300;

/// Milliseconds to wait before the header of the file-header packet is
/// read.
pub const FILE_HEADER_SETTLE_MS: u64 = 600;

/// The packet that tells a Kermit server to finish: a generic command with
/// the data `F`, numbered 0, with its check worked out beforehand.
pub open spec fn finish_packet() -> Seq<u8> {
    seq![SOH, 0x24u8, 0x20u8, TYPE_GENERIC, GENERIC_FINISH, 0x34u8, CR]
}

/// The wire forms of a list of packets.
pub open spec fn wires(packets: Seq<PacketView>) -> Seq<Seq<u8>> {
    packets.map_values(|p: PacketView| p.wire())
}

/// The packets that send a file, in order: send-init, file header with the
/// name, the data packets, end of file, end of transmission, numbered from
/// 0.
pub open spec fn spec_send_plan(name: Seq<u8>, data: Seq<u8>) -> Seq<Seq<u8>> {
    let list = spec_packet_list(data, 2);
    seq![
        packet_wire(len_field(8), seq_field(0), TYPE_SEND_INIT, init_params()),
        packet_wire(len_field(name.len()), seq_field(1), TYPE_FILE_HEADER, name),
    ] + wires(list) + seq![
        packet_wire(len_field(0), seq_field(2 + list.len()), TYPE_EOF, Seq::empty()),
        packet_wire(len_field(0), seq_field(3 + list.len()), TYPE_EOT, Seq::empty()),
    ]
}

/// Where a sending session stands.
#[derive(Clone, Copy, Debug, PartialEq, Eq, Structural)]
pub enum KermitSendState {
    /// Not begun.
    Idle,
    /// The packet at `index` is being written.
    PacketWritten { index: usize },
    /// The header of the answer to the packet at `index` is being read.
    AwaitHeader { index: usize },
    /// The rest of the answer is being read; `len` and `seq` are the
    /// length and sequence fields of its header.
    AwaitBody { index: usize, len: u8, seq: u8 },
    /// The init-info packet that goes before the finish command is being
    /// written.
    InfoWritten,
    /// The finish command is being written.
    FinishWritten,
    /// Ended well.
    Done,
    /// Ended with an error.
    Failed(TransferError),
}

/// What a sending session sends: fixed when the session is made.
pub struct KermitSendPlan {
    /// The packets, in order, as they go over the wire.
    pub packets: Seq<Seq<u8>>,
    /// Whether the server is told to finish at the end.
    pub finish: bool,
}

/// A sending session.
pub struct KermitSender {
    /// The packets, in order, as they go over the wire.
    pub packets: Vec<Vec<u8>>,
    /// Whether the server is told to finish at the end.
    pub finish: bool,
    /// Where the session stands.
    pub state: KermitSendState,
}

/// The state names a packet that is there.
pub open spec fn kermit_send_state_fits(plan: KermitSendPlan, state: KermitSendState) -> bool {
    match state {
        KermitSendState::PacketWritten { index } => index < plan.packets.len(),
        KermitSendState::AwaitHeader { index } => index < plan.packets.len(),
        KermitSendState::AwaitBody { index, len, seq } => index < plan.packets.len(),
        _ => true,
    }
}

/// The session ends with the error `e`.
pub open spec fn kermit_send_fail(e: TransferError) -> (KermitSendState, ActionView) {
    (KermitSendState::Failed(e), ActionView::Fail(e))
}

/// The packet at `index` is written; the last packet, the end of
/// transmission, after a settle time.
pub open spec fn kermit_send_packet(plan: KermitSendPlan, index: usize) -> (
    KermitSendState,
    ActionView,
) {
    (
        KermitSendState::PacketWritten { index },
        write_after(
            if index + 1 == plan.packets.len() {
                WRITE_SETTLE_MS
            } else {
                0
            },
            plan.packets[index as int],
        ),
    )
}

/// After the packet at `index` was acknowledged: the next packet is
/// written; after the last, the server is told to finish if that was asked
/// for, which starts with an init-info packet numbered 0.
pub open spec fn kermit_send_advance(plan: KermitSendPlan, index: usize) -> (
    KermitSendState,
    ActionView,
) {
    if index + 1 < plan.packets.len() {
        kermit_send_packet(plan, (index + 1) as usize)
    } else if plan.finish {
        (
            KermitSendState::InfoWritten,
            write_now(packet_wire(len_field(8), seq_field(0), TYPE_INFO, init_params())),
        )
    } else {
        (KermitSendState::Done, ActionView::Done)
    }
}

/// The header whose length and sequence fields a state remembers.
pub open spec fn header_of(len: u8, seq: u8) -> Seq<u8> {
    seq![SOH, len, seq]
}

/// The next state and the next action of a sending session.
///
/// A session that has ended stays as it is. A transport failure ends the
/// session, and so does an event that the state does not wait for. The
/// answer to a packet must parse, pass its check and be an acknowledgment.
pub open spec fn spec_kermit_send_step(
    plan: KermitSendPlan,
    state: KermitSendState,
    event: EventView,
) -> (KermitSendState, ActionView) {
    match state {
        KermitSendState::Done => (KermitSendState::Done, ActionView::Done),
        KermitSendState::Failed(e) => kermit_send_fail(e),
        _ => match event {
            EventView::Failed => kermit_send_fail(TransferError::TransportIO),
            EventView::Start => match state {
                KermitSendState::Idle => if plan.packets.len() > 0 {
                    kermit_send_packet(plan, 0)
                } else {
                    (KermitSendState::Done, ActionView::Done)
                },
                _ => kermit_send_fail(TransferError::ProtocolViolation),
            },
            EventView::Written => match state {
                KermitSendState::PacketWritten { index } => (
                    KermitSendState::AwaitHeader { index },
                    read_after(HEADER_SETTLE_MS, HEADER_LEN),
                ),
                KermitSendState::InfoWritten => (
                    KermitSendState::FinishWritten,
                    write_after(WRITE_SETTLE_MS, finish_packet()),
                ),
                KermitSendState::FinishWritten => (KermitSendState::Done, ActionView::Done),
                _ => kermit_send_fail(TransferError::ProtocolViolation),
            },
            EventView::Received(bytes) => match state {
                KermitSendState::AwaitHeader { index } => match spec_body_len(bytes) {
                    Ok(n) => (
                        KermitSendState::AwaitBody { index, len: bytes[1], seq: bytes[2] },
                        read_after(BODY_SETTLE_MS, n as usize),
                    ),
                    Err(e) => kermit_send_fail(e),
                },
                KermitSendState::AwaitBody { index, len, seq } => match spec_parse_packet(
                    header_of(len, seq),
                    bytes,
                ) {
                    Ok(packet) => if packet.ptype == TYPE_ACK {
                        kermit_send_advance(plan, index)
                    } else {
                        kermit_send_fail(TransferError::ProtocolViolation)
                    },
                    Err(e) => kermit_send_fail(e),
                },
                _ => kermit_send_fail(TransferError::ProtocolViolation),
            },
        },
    }
}

/// A session never leaves its plan: from a state that names a packet of
/// the plan, every event leads to such a state.
pub proof fn lemma_kermit_send_step_fits(
    plan: KermitSendPlan,
    state: KermitSendState,
    event: EventView,
)
    requires
        kermit_send_state_fits(plan, state),
    ensures
        kermit_send_state_fits(plan, spec_kermit_send_step(plan, state, event).0),
{
}

/// Nothing is tried twice: a step never writes the packet again whose
/// answer it has just read, so an answer that is no acknowledgment, fails
/// its check or does not parse ends the session.
pub proof fn lemma_kermit_no_retry(
    plan: KermitSendPlan,
    index: usize,
    len: u8,
    seq: u8,
    bytes: Seq<u8>,
)
    requires
        index < plan.packets.len() <= usize::MAX,
    ensures
        ({
            let after = spec_kermit_send_step(
                plan,
                KermitSendState::AwaitBody { index, len, seq },
                EventView::Received(bytes),
            );
            match spec_parse_packet(header_of(len, seq), bytes) {
                Ok(packet) => packet.ptype != TYPE_ACK ==> after == kermit_send_fail(
                    TransferError::ProtocolViolation,
                ),
                Err(e) => after == kermit_send_fail(e),
            }
        }),
        spec_kermit_send_step(
            plan,
            KermitSendState::AwaitBody { index, len, seq },
            EventView::Received(bytes),
        ).0 != (KermitSendState::PacketWritten { index }),
{
}

/// Makes the packet that tells a Kermit server to finish.
pub fn make_finish_packet() -> (p: Vec<u8>)
    ensures
        p@ == finish_packet(),
{
    let p: Vec<u8> = vec![SOH, 0x24u8, 0x20u8, TYPE_GENERIC, GENERIC_FINISH, 0x34u8, CR];
    assert(p@ =~= finish_packet());
    p
}

/// The finish packet is a packet like any other: its length field counts
/// its one byte of data, its number is 0, and the check it carries is the
/// check of its bytes.
pub proof fn lemma_finish_packet()
    ensures
        finish_packet() == packet_wire(
            len_field(1),
            seq_field(0),
            TYPE_GENERIC,
            seq![GENERIC_FINISH],
        ),
{
    let covered = crate::kermit::checked_bytes(
        len_field(1),
        seq_field(0),
        TYPE_GENERIC,
        seq![GENERIC_FINISH],
    );
    let s0 = Seq::<u8>::empty();
    assert(covered =~= s0.push(0x24u8).push(0x20u8).push(TYPE_GENERIC).push(GENERIC_FINISH));
    assert(crate::helpers::byte_sum(s0) == 0);
    crate::helpers::lemma_byte_sum_push(s0, 0x24u8);
    crate::helpers::lemma_byte_sum_push(s0.push(0x24u8), 0x20u8);
    crate::helpers::lemma_byte_sum_push(s0.push(0x24u8).push(0x20u8), TYPE_GENERIC);
    crate::helpers::lemma_byte_sum_push(
        s0.push(0x24u8).push(0x20u8).push(TYPE_GENERIC),
        GENERIC_FINISH,
    );
    assert(crate::helpers::byte_sum(covered) == 209);
    assert(finish_packet() =~= packet_wire(
        len_field(1),
        seq_field(0),
        TYPE_GENERIC,
        seq![GENERIC_FINISH],
    ));
}

impl KermitSender {
    /// What the session sends.
    pub open spec fn plan(&self) -> KermitSendPlan {
        KermitSendPlan { packets: frames_of(self.packets@), finish: self.finish }
    }

    /// The state names a packet that is there.
    pub open spec fn wf(&self) -> bool {
        kermit_send_state_fits(self.plan(), self.state)
    }

    /// Whether the state names a packet that is there.
    pub fn fits(&self) -> (b: bool)
        ensures
            b == self.wf(),
    {
        match self.state {
            KermitSendState::PacketWritten { index } => index < self.packets.len(),
            KermitSendState::AwaitHeader { index } => index < self.packets.len(),
            KermitSendState::AwaitBody { index, len, seq } => index < self.packets.len(),
            _ => true,
        }
    }

    /// Ends the session with the error `e`.
    fn fail(&mut self, e: TransferError) -> (action: Action)
        ensures
            final(self).plan() == old(self).plan(),
            (final(self).state, action@) == kermit_send_fail(e),
    {
        self.state = KermitSendState::Failed(e);
        Action::Fail(e)
    }

    /// Writes the packet at `index`.
    fn write_packet(&mut self, index: usize) -> (action: Action)
        requires
            index < old(self).packets@.len(),
        ensures
            final(self).plan() == old(self).plan(),
            (final(self).state, action@) == kermit_send_packet(old(self).plan(), index),
    {
        self.state = KermitSendState::PacketWritten { index };
        let settle_ms: u64 = if self.packets.len() - index == 1 {
            WRITE_SETTLE_MS
        } else {
            0
        };
        Action::Write { bytes: slice_to_vec(self.packets[index].as_slice()), settle_ms }
    }

    /// Moves on after the packet at `index` was acknowledged.
    fn advance(&mut self, index: usize) -> (action: Action)
        requires
            index < old(self).packets@.len(),
        ensures
            final(self).plan() == old(self).plan(),
            (final(self).state, action@) == kermit_send_advance(old(self).plan(), index),
    {
        if self.packets.len() - index > 1 {
            self.write_packet(index + 1)
        } else if self.finish {
            self.state = KermitSendState::InfoWritten;
            let mut seq: u32 = 0;
            Action::Write { bytes: make_init_packet(&mut seq, 'I'), settle_ms: 0 }
        } else {
            self.state = KermitSendState::Done;
            Action::Done
        }
    }

    /// Takes what happened on the transport and says what to do next.
    pub fn step(&mut self, event: Event) -> (action: Action)
        requires
            old(self).wf(),
        ensures
            final(self).plan() == old(self).plan(),
            (final(self).state, action@) == spec_kermit_send_step(
                old(self).plan(),
                old(self).state,
                event@,
            ),
            final(self).wf(),
    {
        proof {
            lemma_kermit_send_step_fits(self.plan(), self.state, event@);
        }
        let state = self.state;
        match state {
            KermitSendState::Done => {
                return Action::Done;
            },
            KermitSendState::Failed(e) => {
                return Action::Fail(e);
            },
            _ => {},
        }
        match event {
            Event::Failed => self.fail(TransferError::TransportIO),
            Event::Start => match state {
                KermitSendState::Idle => {
                    if self.packets.len() > 0 {
                        self.write_packet(0)
                    } else {
                        self.state = KermitSendState::Done;
                        Action::Done
                    }
                },
                _ => self.fail(TransferError::ProtocolViolation),
            },
            Event::Written => match state {
                KermitSendState::PacketWritten { index } => {
                    self.state = KermitSendState::AwaitHeader { index };
                    Action::Read { len: HEADER_LEN, settle_ms: HEADER_SETTLE_MS }
                },
                KermitSendState::InfoWritten => {
                    self.state = KermitSendState::FinishWritten;
                    Action::Write { bytes: make_finish_packet(), settle_ms: WRITE_SETTLE_MS }
                },
                KermitSendState::FinishWritten => {
                    self.state = KermitSendState::Done;
                    Action::Done
                },
                _ => self.fail(TransferError::ProtocolViolation),
            },
            Event::Received(bytes) => match state {
                KermitSendState::AwaitHeader { index } => match packet_body_len(
                    bytes.as_slice(),
                ) {
                    Ok(n) => {
                        self.state = KermitSendState::AwaitBody {
                            index,
                            len: bytes[1],
                            seq: bytes[2],
                        };
                        Action::Read { len: n, settle_ms: BODY_SETTLE_MS }
                    },
                    Err(e) => self.fail(e),
                },
                KermitSendState::AwaitBody { index, len, seq } => {
                    let header: Vec<u8> = vec![SOH, len, seq];
                    assert(header@ =~= header_of(len, seq));
                    match parse_packet(header.as_slice(), bytes.as_slice()) {
                        Ok(packet) => {
                            if packet.ptype == TYPE_ACK {
                                self.advance(index)
                            } else {
                                self.fail(TransferError::ProtocolViolation)
                            }
                        },
                        Err(e) => self.fail(e),
                    }
                },
                _ => self.fail(TransferError::ProtocolViolation),
            },
        }
    }
}

/// Makes the session that sends a file under the name `file_name`.
pub fn send_file(file_name: &[u8], file_contents: &[u8], finish: bool) -> (session: KermitSender)
    requires
        file_name.len() <= MAX_DATA,
    ensures
        session.plan() == (KermitSendPlan {
            packets: spec_send_plan(file_name@, file_contents@),
            finish,
        }),
        session.state == KermitSendState::Idle,
        session.wf(),
{
    let mut seq: u32 = 0;
    let mut packets: Vec<Vec<u8>> = Vec::new();
    packets.push(make_init_packet(&mut seq, 'S'));
    packets.push(make_f_packet(&mut seq, file_name));
    assert(seq == 2);
    let list: Vec<KermitPacket> = make_packet_list(file_contents, &mut seq);
    let ghost views = spec_packet_list(file_contents@, 2);
    let ghost head = frames_of(packets@);
    let mut i: usize = 0;
    while i < list.len()
        invariant
            i <= list.len(),
            packet_views(list@) == views,
            frames_of(packets@) == head + wires(views.take(i as int)),
        decreases list.len() - i,
    {
        let ghost before = frames_of(packets@);
        let wire = list[i].to_vec();
        assert(wire@ == views[i as int].wire()) by {
            assert(packet_views(list@)[i as int] == list@[i as int]@);
        }
        packets.push(wire);
        assert(frames_of(packets@) =~= before.push(wire@));
        assert(wires(views.take(i + 1)) =~= wires(views.take(i as int)).push(wire@));
        i += 1;
    }
    assert(views.take(list@.len() as int) =~= views);
    proof {
        lemma_advance_seq(2, list@.len());
        lemma_advance_seq(2, list@.len() + 1);
    }
    let ghost before_eof = frames_of(packets@);
    let eof = make_generic_packet(&mut seq, 'Z');
    let eot = make_generic_packet(&mut seq, 'B');
    packets.push(eof);
    packets.push(eot);
    assert(frames_of(packets@) =~= before_eof.push(eof@).push(eot@));
    assert(frames_of(packets@) =~= spec_send_plan(file_name@, file_contents@));
    KermitSender { packets, finish, state: KermitSendState::Idle }
}

/// The packet that a receiving session waits for.
#[derive(Clone, Copy, Debug, PartialEq, Eq, Structural)]
pub enum Expect {
    /// The sender's send-init packet.
    SendInit,
    /// The file header.
    FileHeader,
    /// A data packet, or the end of file.
    Data,
    /// The end of transmission.
    EndOfTransmission,
    /// Nothing more.
    Nothing,
}

/// Where a receiving session stands.
#[derive(Clone, Copy, Debug, PartialEq, Eq, Structural)]
pub enum KermitRecvState {
    /// Not begun.
    Idle,
    /// The header of a packet is being read.
    AwaitHeader { expect: Expect },
    /// The rest of a packet is being read; `len` and `seq` are the length
    /// and sequence fields of its header.
    AwaitBody { expect: Expect, len: u8, seq: u8 },
    /// An acknowledgment is being written; `expect` is what comes after it.
    AckWritten { expect: Expect },
    /// Ended well.
    Done,
    /// Ended with an error.
    Failed(TransferError),
}

/// A receiving session.
pub struct KermitReceiver {
    /// Where the session stands.
    pub state: KermitRecvState,
    /// The number of the next packet that the session writes.
    pub seq: u32,
    /// The file as far as it has been received.
    pub data: Vec<u8>,
    /// The number of data packets received, as far as it can be counted.
    pub packets: u64,
}

/// A receiving session with its file as a sequence.
pub struct KermitReceiverView {
    /// Where the session stands.
    pub state: KermitRecvState,
    /// The number of the next packet that the session writes.
    pub seq: u32,
    /// The file as far as it has been received.
    pub data: Seq<u8>,
    /// The number of data packets received, as far as it can be counted.
    pub packets: u64,
}

impl View for KermitReceiver {
    type V = KermitReceiverView;

    open spec fn view(&self) -> KermitReceiverView {
        KermitReceiverView {
            state: self.state,
            seq: self.seq,
            data: self.data@,
            packets: self.packets,
        }
    }
}

/// The session ends with the error `e`; what was received stays.
pub open spec fn kermit_recv_fail(session: KermitReceiverView, e: TransferError) -> (
    KermitReceiverView,
    ActionView,
) {
    (KermitReceiverView { state: KermitRecvState::Failed(e), ..session }, ActionView::Fail(e))
}

/// A packet is acknowledged with a packet without data, and `expect` is
/// waited for next.
pub open spec fn kermit_recv_ack(session: KermitReceiverView, expect: Expect) -> (
    KermitReceiverView,
    ActionView,
) {
    (
        KermitReceiverView {
            state: KermitRecvState::AckWritten { expect },
            seq: next_seq(session.seq),
            ..session
        },
        write_now(
            packet_wire(len_field(0), seq_field(session.seq as nat), TYPE_ACK, Seq::empty()),
        ),
    )
}

/// One more data packet, as far as the count goes.
pub open spec fn count_packet(packets: u64) -> u64 {
    if packets < u64::MAX {
        (packets + 1) as u64
    } else {
        packets
    }
}

/// What follows a packet that parsed and passed its check. The send-init
/// packet is answered, after a settle time, with an acknowledgment that
/// carries this side's parameters; the file header, each data packet, the
/// end of file and the end of transmission with an acknowledgment without
/// data. The bytes of a data packet are unescaped and appended to the
/// file. A packet of another type than is due ends the session, and so
/// does a data field that ends in a bare prefix.
pub open spec fn kermit_recv_packet(
    session: KermitReceiverView,
    expect: Expect,
    packet: PacketView,
) -> (KermitReceiverView, ActionView) {
    match expect {
        Expect::SendInit => if packet.ptype == TYPE_SEND_INIT {
            (
                KermitReceiverView {
                    state: KermitRecvState::AckWritten { expect: Expect::FileHeader },
                    seq: next_seq(session.seq),
                    ..session
                },
                write_after(
                    WRITE_SETTLE_MS,
                    packet_wire(
                        len_field(8),
                        seq_field(session.seq as nat),
                        TYPE_ACK,
                        init_params(),
                    ),
                ),
            )
        } else {
            kermit_recv_fail(session, TransferError::ProtocolViolation)
        },
        Expect::FileHeader => if packet.ptype == TYPE_FILE_HEADER {
            kermit_recv_ack(session, Expect::Data)
        } else {
            kermit_recv_fail(session, TransferError::ProtocolViolation)
        },
        Expect::Data => if packet.ptype == TYPE_DATA {
            match spec_unescape(packet.data) {
                Some(bytes) => kermit_recv_ack(
                    KermitReceiverView {
                        data: session.data + bytes,
                        packets: count_packet(session.packets),
                        ..session
                    },
                    Expect::Data,
                ),
                None => kermit_recv_fail(session, TransferError::ProtocolViolation),
            }
        } else if packet.ptype == TYPE_EOF {
            kermit_recv_ack(session, Expect::EndOfTransmission)
        } else {
            kermit_recv_fail(session, TransferError::ProtocolViolation)
        },
        Expect::EndOfTransmission => if packet.ptype == TYPE_EOT {
            kermit_recv_ack(session, Expect::Nothing)
        } else {
            kermit_recv_fail(session, TransferError::ProtocolViolation)
        },
        Expect::Nothing => kermit_recv_fail(session, TransferError::ProtocolViolation),
    }
}

/// Milliseconds to wait before the header of the packet that is due is
/// read.
pub open spec fn header_settle_ms(expect: Expect) -> u64 {
    if expect == Expect::FileHeader {
        FILE_HEADER_SETTLE_MS
    } else {
        HEADER_SETTLE_MS
    }
}

/// The session and the next action of a receiving session.
///
/// A session that has ended stays as it is. A transport failure ends the
/// session, and so does an event that the state does not wait for. A
/// packet must parse and pass its check.
pub open spec fn spec_kermit_recv_step(session: KermitReceiverView, event: EventView) -> (
    KermitReceiverView,
    ActionView,
) {
    match session.state {
        KermitRecvState::Done => (session, ActionView::Done),
        KermitRecvState::Failed(e) => kermit_recv_fail(session, e),
        _ => match event {
            EventView::Failed => kermit_recv_fail(session, TransferError::TransportIO),
            EventView::Start => match session.state {
                KermitRecvState::Idle => (
                    KermitReceiverView {
                        state: KermitRecvState::AwaitHeader { expect: Expect::SendInit },
                        ..session
                    },
                    read_after(HEADER_SETTLE_MS, HEADER_LEN),
                ),
                _ => kermit_recv_fail(session, TransferError::ProtocolViolation),
            },
            EventView::Written => match session.state {
                KermitRecvState::AckWritten { expect } => if expect == Expect::Nothing {
                    (
                        KermitReceiverView { state: KermitRecvState::Done, ..session },
                        ActionView::Done,
                    )
                } else {
                    (
                        KermitReceiverView {
                            state: KermitRecvState::AwaitHeader { expect },
                            ..session
                        },
                        read_after(header_settle_ms(expect), HEADER_LEN),
                    )
                },
                _ => kermit_recv_fail(session, TransferError::ProtocolViolation),
            },
            EventView::Received(bytes) => match session.state {
                KermitRecvState::AwaitHeader { expect } => match spec_body_len(bytes) {
                    Ok(n) => (
                        KermitReceiverView {
                            state: KermitRecvState::AwaitBody {
                                expect,
                                len: bytes[1],
                                seq: bytes[2],
                            },
                            ..session
                        },
                        read_after(BODY_SETTLE_MS, n as usize),
                    ),
                    Err(e) => kermit_recv_fail(session, e),
                },
                KermitRecvState::AwaitBody { expect, len, seq } => match spec_parse_packet(
                    header_of(len, seq),
                    bytes,
                ) {
                    Ok(packet) => kermit_recv_packet(session, expect, packet),
                    Err(e) => kermit_recv_fail(session, e),
                },
                _ => kermit_recv_fail(session, TransferError::ProtocolViolation),
            },
        },
    }
}

/// What was received is never lost: after a step the file starts with
/// what it held before.
pub proof fn lemma_kermit_recv_keeps_data(session: KermitReceiverView, event: EventView)
    ensures
        session.data.is_prefix_of(spec_kermit_recv_step(session, event).0.data),
{
    let after = spec_kermit_recv_step(session, event).0;
    assert(after.data == session.data || exists|bytes: Seq<u8>|
        after.data == session.data + bytes) by {
        if let KermitRecvState::AwaitBody { expect, len, seq } = session.state {
            if let EventView::Received(bytes) = event {
                if let Ok(packet) = spec_parse_packet(header_of(len, seq), bytes) {
                    if expect == Expect::Data && packet.ptype == TYPE_DATA {
                        if let Some(plain) = spec_unescape(packet.data) {
                            assert(after.data == session.data + plain);
                        }
                    }
                }
            }
        }
    }
    if after.data != session.data {
        let bytes = choose|bytes: Seq<u8>| after.data == session.data + bytes;
        assert(session.data =~= (session.data + bytes).subrange(0, session.data.len() as int));
    }
}

/// A data packet of the sending side is taken by the receiving side: when
/// a data packet is due, the first three bytes of a well-formed data
/// packet's wire form have the rest of it read, and the rest has the
/// packet acknowledged and its bytes, unescaped, appended to the file.
pub proof fn lemma_receive_sent_packet(session: KermitReceiverView, packet: PacketView)
    requires
        session.state == (KermitRecvState::AwaitHeader { expect: Expect::Data }),
        packet.well_formed(),
        packet.ptype == TYPE_DATA,
        spec_unescape(packet.data) is Some,
    ensures
        ({
            let (reading, read) = spec_kermit_recv_step(
                session,
                EventView::Received(packet.wire().take(3)),
            );
            let (after, ack) = spec_kermit_recv_step(
                reading,
                EventView::Received(packet.wire().skip(3)),
            );
            &&& read == read_after(BODY_SETTLE_MS, (packet.data.len() + 3) as usize)
            &&& after.data == session.data + spec_unescape(packet.data).unwrap()
            &&& after.state == (KermitRecvState::AckWritten { expect: Expect::Data })
            &&& ack == write_now(
                packet_wire(len_field(0), seq_field(session.seq as nat), TYPE_ACK, Seq::empty()),
            )
        }),
{
    crate::kermit::lemma_parse_wire(packet);
    let header = packet.wire().take(3);
    assert(header[1] == packet.len && header[2] == packet.seq);
    assert(header_of(packet.len, packet.seq) =~= header);
}

impl KermitReceiver {
    /// Ends the session with the error `e`.
    fn fail(&mut self, e: TransferError) -> (action: Action)
        ensures
            (final(self)@, action@) == kermit_recv_fail(old(self)@, e),
    {
        self.state = KermitRecvState::Failed(e);
        Action::Fail(e)
    }

    /// Acknowledges a packet with a packet without data.
    fn ack(&mut self, expect: Expect) -> (action: Action)
        ensures
            (final(self)@, action@) == kermit_recv_ack(old(self)@, expect),
    {
        self.state = KermitRecvState::AckWritten { expect };
        Action::Write { bytes: make_generic_packet(&mut self.seq, 'Y'), settle_ms: 0 }
    }

    /// Acts on a packet that parsed and passed its check.
    fn packet(&mut self, expect: Expect, packet: &KermitPacket) -> (action: Action)
        ensures
            (final(self)@, action@) == kermit_recv_packet(old(self)@, expect, packet@),
    {
        match expect {
            Expect::SendInit => {
                if packet.ptype == TYPE_SEND_INIT {
                    self.state = KermitRecvState::AckWritten { expect: Expect::FileHeader };
                    Action::Write {
                        bytes: make_init_packet(&mut self.seq, 'Y'),
                        settle_ms: WRITE_SETTLE_MS,
                    }
                } else {
                    self.fail(TransferError::ProtocolViolation)
                }
            },
            Expect::FileHeader => {
                if packet.ptype == TYPE_FILE_HEADER {
                    self.ack(Expect::Data)
                } else {
                    self.fail(TransferError::ProtocolViolation)
                }
            },
            Expect::Data => {
                if packet.ptype == TYPE_DATA {
                    match unescape(packet.data.as_slice()) {
                        Some(bytes) => {
                            let ghost before = self.data@;
                            let mut i: usize = 0;
                            while i < bytes.len()
                                invariant
                                    i <= bytes.len(),
                                    self.data@ == before + bytes@.take(i as int),
                                    self.state == old(self).state,
                                    self.seq == old(self).seq,
                                    self.packets == old(self).packets,
                                decreases bytes.len() - i,
                            {
                                self.data.push(bytes[i]);
                                assert(bytes@.take(i + 1) =~= bytes@.take(i as int).push(
                                    bytes@[i as int],
                                ));
                                i += 1;
                            }
                            assert(bytes@.take(bytes.len() as int) =~= bytes@);
                            if self.packets < u64::MAX {
                                self.packets = self.packets + 1;
                            }
                            self.ack(Expect::Data)
                        },
                        None => self.fail(TransferError::ProtocolViolation),
                    }
                } else if packet.ptype == TYPE_EOF {
                    self.ack(Expect::EndOfTransmission)
                } else {
                    self.fail(TransferError::ProtocolViolation)
                }
            },
            Expect::EndOfTransmission => {
                if packet.ptype == TYPE_EOT {
                    self.ack(Expect::Nothing)
                } else {
                    self.fail(TransferError::ProtocolViolation)
                }
            },
            Expect::Nothing => self.fail(TransferError::ProtocolViolation),
        }
    }

    /// Takes what happened on the transport and says what to do next.
    pub fn step(&mut self, event: Event) -> (action: Action)
        ensures
            (final(self)@, action@) == spec_kermit_recv_step(old(self)@, event@),
    {
        let state = self.state;
        match state {
            KermitRecvState::Done => {
                return Action::Done;
            },
            KermitRecvState::Failed(e) => {
                return Action::Fail(e);
            },
            _ => {},
        }
        match event {
            Event::Failed => self.fail(TransferError::TransportIO),
            Event::Start => match state {
                KermitRecvState::Idle => {
                    self.state = KermitRecvState::AwaitHeader { expect: Expect::SendInit };
                    Action::Read { len: HEADER_LEN, settle_ms: HEADER_SETTLE_MS }
                },
                _ => self.fail(TransferError::ProtocolViolation),
            },
            Event::Written => match state {
                KermitRecvState::AckWritten { expect } => {
                    match expect {
                        Expect::Nothing => {
                            self.state = KermitRecvState::Done;
                            Action::Done
                        },
                        Expect::FileHeader => {
                            self.state = KermitRecvState::AwaitHeader { expect };
                            Action::Read { len: HEADER_LEN, settle_ms: FILE_HEADER_SETTLE_MS }
                        },
                        _ => {
                            self.state = KermitRecvState::AwaitHeader { expect };
                            Action::Read { len: HEADER_LEN, settle_ms: HEADER_SETTLE_MS }
                        },
                    }
                },
                _ => self.fail(TransferError::ProtocolViolation),
            },
            Event::Received(bytes) => match state {
                KermitRecvState::AwaitHeader { expect } => match packet_body_len(
                    bytes.as_slice(),
                ) {
                    Ok(n) => {
                        self.state = KermitRecvState::AwaitBody {
                            expect,
                            len: bytes[1],
                            seq: bytes[2],
                        };
                        Action::Read { len: n, settle_ms: BODY_SETTLE_MS }
                    },
                    Err(e) => self.fail(e),
                },
                KermitRecvState::AwaitBody { expect, len, seq } => {
                    let header: Vec<u8> = vec![SOH, len, seq];
                    assert(header@ =~= header_of(len, seq));
                    match parse_packet(header.as_slice(), bytes.as_slice()) {
                        Ok(packet) => self.packet(expect, &packet),
                        Err(e) => self.fail(e),
                    }
                },
                _ => self.fail(TransferError::ProtocolViolation),
            },
        }
    }
}

/// Makes the session that receives a file.
pub fn get_file() -> (session: KermitReceiver)
    ensures
        session@ == (KermitReceiverView {
            state: KermitRecvState::Idle,
            seq: 0,
            data: Seq::empty(),
            packets: 0,
        }),
{
    KermitReceiver { state: KermitRecvState::Idle, seq: 0, data: Vec::new(), packets: 0 }
}

} // verus!
