//! The XModem sessions: what to write and read next, given what came back.
//!
//! The sending side writes a packet and reads one byte. `ACK` moves on to
//! the next packet, `NAK` has the packet written again, for at most
//! `MAX_ATTEMPTS` writes of one packet, and `CAN` ends the session. The
//! receiving side asks for a packet with `NAK`, checks each frame and
//! answers `ACK` or `NAK`, until the sender ends the transmission.

use crate::error::TransferError;
use crate::transport::{
    frames_of, read_after, write_after, write_now, Action, ActionView, Event, EventView,
};
use crate::xmodem::{
    classify_frame, create_command_packet, data_to_128_packets, data_to_conn4x_packets,
    frame_payload, spec_classify_frame, spec_command_packet, spec_conn4x_packets,
    spec_packet_128, spec_packets_128, trim_trailing_zeros, trimmed_len, ChecksumMode, FrameKind, ACK, BLOCK, CAN,
    EOT, FRAME_LEN, MAX_NAME, NAK,
};
use vstd::prelude::*;
use vstd::slice::{slice_subrange, slice_to_vec};

verus! {

/// How often one packet is written, or asked for, before the session gives
/// up.
pub const MAX_ATTEMPTS: u8 = 3;

/// Tells the XModem server to take a file, `P`.
pub const CMD_PUT: u8 = 0x50;

/// Tells the XModem server to send a file, `G`.
pub const CMD_GET: u8 = 0x47;

/// The XModem server's sign that it is ready for packets, `D`.
pub const READY: u8 = 0x44;

/// Tells the XModem server to exit, `Q`.
pub const QUIT: u8 = 0x51;

/// Milliseconds to wait before the server is told to exit.
pub const QUIT_SETTLE_MS: u64 = 300;

/// Milliseconds to wait before the first packet is asked for.
pub const SOLICIT_SETTLE_MS: u64 = 500;

/// Milliseconds to wait before a frame is read.
pub const FRAME_SETTLE_MS: u64 = 300;

/// Where a sending session stands.
#[derive(Clone, Copy, Debug, PartialEq, Eq, Structural)]
pub enum SendState {
    /// Not begun.
    Idle,
    /// The command packet is being written.
    CommandWritten,
    /// The server's answer to the command is being read.
    AwaitCommandAck,
    /// The server's sign that it is ready is being read.
    AwaitReady,
    /// The receiver's request for the first packet is being read.
    AwaitSolicit,
    /// The packet at `index` is being written, for the `attempt`th time.
    PacketWritten { index: usize, attempt: u8 },
    /// The answer to the packet at `index` is being read.
    AwaitReply { index: usize, attempt: u8 },
    /// The end of transmission is being written.
    EotWritten,
    /// The answer to the end of transmission is being read.
    AwaitFinalAck,
    /// The server is being told to exit.
    QuitWritten,
    /// Ended well.
    Done,
    /// Ended with an error.
    Failed(TransferError),
}

/// What a sending session sends: fixed when the session is made.
pub struct SendPlan {
    /// The packets, in order.
    pub packets: Seq<Seq<u8>>,
    /// The command packet for the XModem server.
    pub command: Seq<u8>,
    /// Whether the other side is the XModem server, which takes a command
    /// first, and not the calculator's own receive command.
    pub server: bool,
    /// Whether the server is told to exit at the end.
    pub finish: bool,
}

/// A sending session.
pub struct XmodemSender {
    /// The packets, in order.
    pub packets: Vec<Vec<u8>>,
    /// The command packet for the XModem server.
    pub command: Vec<u8>,
    /// Whether the other side is the XModem server.
    pub server: bool,
    /// Whether the server is told to exit at the end.
    pub finish: bool,
    /// Where the session stands.
    pub state: SendState,
}

/// The state is one that the plan allows: a packet that is there, and an
/// attempt within the bound.
pub open spec fn send_state_fits(plan: SendPlan, state: SendState) -> bool {
    match state {
        SendState::PacketWritten { index, attempt } => index < plan.packets.len() && 1 <= attempt
            <= MAX_ATTEMPTS,
        SendState::AwaitReply { index, attempt } => index < plan.packets.len() && 1 <= attempt
            <= MAX_ATTEMPTS,
        _ => true,
    }
}

/// The session ends with the error `e`.
pub open spec fn send_fail(e: TransferError) -> (SendState, ActionView) {
    (SendState::Failed(e), ActionView::Fail(e))
}

/// After the last packet: the server is told to exit if that was asked for.
pub open spec fn send_finish(plan: SendPlan) -> (SendState, ActionView) {
    if plan.finish {
        (SendState::QuitWritten, write_after(QUIT_SETTLE_MS, seq![QUIT]))
    } else {
        (SendState::Done, ActionView::Done)
    }
}

/// The first packet is written, if there is one.
pub open spec fn send_begin(plan: SendPlan) -> (SendState, ActionView) {
    if plan.packets.len() == 0 {
        send_finish(plan)
    } else {
        (SendState::PacketWritten { index: 0, attempt: 1 }, write_now(plan.packets[0]))
    }
}

/// What follows the answer `c` to the `attempt`th write of the packet at
/// `index`. `ACK` moves on: to the next packet, or after the last packet to
/// the end of transmission. `CAN` ends the session. `NAK`, and any other
/// byte, has the packet written again, unless it has been written
/// `MAX_ATTEMPTS` times.
pub open spec fn send_reply(plan: SendPlan, index: usize, attempt: u8, c: u8) -> (
    SendState,
    ActionView,
) {
    if c == ACK {
        if index + 1 < plan.packets.len() {
            (
                SendState::PacketWritten { index: (index + 1) as usize, attempt: 1 },
                write_now(plan.packets[index + 1]),
            )
        } else {
            (SendState::EotWritten, write_now(seq![EOT]))
        }
    } else if c == CAN {
        send_fail(TransferError::TransferCancelled)
    } else if attempt < MAX_ATTEMPTS {
        (
            SendState::PacketWritten { index, attempt: (attempt + 1) as u8 },
            write_now(plan.packets[index as int]),
        )
    } else {
        send_fail(TransferError::RetryExhausted)
    }
}

/// What follows a byte that must be `wanted`: `next` if it is, and the end
/// of the session if it is not.
pub open spec fn send_expect(c: u8, wanted: u8, next: (SendState, ActionView)) -> (
    SendState,
    ActionView,
) {
    if c == wanted {
        next
    } else {
        send_fail(TransferError::ProtocolViolation)
    }
}

/// The next state and the next action of a sending session.
///
/// A session that has ended stays as it is. A transport failure ends the
/// session, and so do an event that the state does not wait for and a read
/// that brought no byte. The server must acknowledge the command with
/// `ACK`, say that it is ready with `READY`, and acknowledge the end of
/// transmission with `ACK`; what the receiver sends to ask for the first
/// packet is not looked at.
pub open spec fn spec_send_step(plan: SendPlan, state: SendState, event: EventView) -> (
    SendState,
    ActionView,
) {
    match state {
        SendState::Done => (SendState::Done, ActionView::Done),
        SendState::Failed(e) => send_fail(e),
        _ => match event {
            EventView::Failed => send_fail(TransferError::TransportIO),
            EventView::Start => match state {
                SendState::Idle => if plan.server {
                    (SendState::CommandWritten, write_now(plan.command))
                } else {
                    (SendState::AwaitSolicit, read_after(0, 1))
                },
                _ => send_fail(TransferError::ProtocolViolation),
            },
            EventView::Written => match state {
                SendState::CommandWritten => (SendState::AwaitCommandAck, read_after(0, 1)),
                SendState::PacketWritten { index, attempt } => (
                    SendState::AwaitReply { index, attempt },
                    read_after(0, 1),
                ),
                SendState::EotWritten => (SendState::AwaitFinalAck, read_after(0, 1)),
                SendState::QuitWritten => (SendState::Done, ActionView::Done),
                _ => send_fail(TransferError::ProtocolViolation),
            },
            EventView::Received(bytes) => if bytes.len() == 0 {
                send_fail(TransferError::TransportIO)
            } else {
                match state {
                    SendState::AwaitCommandAck => send_expect(
                        bytes[0],
                        ACK,
                        (SendState::AwaitReady, read_after(0, 1)),
                    ),
                    SendState::AwaitReady => send_expect(bytes[0], READY, send_begin(plan)),
                    SendState::AwaitSolicit => send_begin(plan),
                    SendState::AwaitReply { index, attempt } => send_reply(
                        plan,
                        index,
                        attempt,
                        bytes[0],
                    ),
                    SendState::AwaitFinalAck => send_expect(bytes[0], ACK, send_finish(plan)),
                    _ => send_fail(TransferError::ProtocolViolation),
                }
            },
        },
    }
}

/// A session never leaves what its plan allows: from a state that fits the
/// plan, every event leads to a state that fits it, so that no packet is
/// ever written more than `MAX_ATTEMPTS` times in a row.
pub proof fn lemma_send_step_fits(plan: SendPlan, state: SendState, event: EventView)
    requires
        send_state_fits(plan, state),
    ensures
        send_state_fits(plan, spec_send_step(plan, state, event).0),
{
}

/// The retry bound: when a packet has been written `MAX_ATTEMPTS` times and
/// is not acknowledged, the session fails and writes nothing; before that,
/// the same packet is written again. This holds of `NAK` and of every
/// other answer that is neither `ACK` nor `CAN`.
pub proof fn lemma_retry_bound(plan: SendPlan, index: usize, attempt: u8, answer: Seq<u8>)
    requires
        index < plan.packets.len(),
        1 <= attempt <= MAX_ATTEMPTS,
        answer.len() > 0,
        answer[0] != ACK,
        answer[0] != CAN,
    ensures
        ({
            let refused = spec_send_step(
                plan,
                SendState::AwaitReply { index, attempt },
                EventView::Received(answer),
            );
            if attempt == MAX_ATTEMPTS {
                refused == send_fail(TransferError::RetryExhausted)
            } else {
                refused == (
                    SendState::PacketWritten { index, attempt: (attempt + 1) as u8 },
                    write_now(plan.packets[index as int]),
                )
            }
        }),
{
}

impl XmodemSender {
    /// What the session sends.
    pub open spec fn plan(&self) -> SendPlan {
        SendPlan {
            packets: frames_of(self.packets@),
            command: self.command@,
            server: self.server,
            finish: self.finish,
        }
    }

    /// The state is one that the plan allows.
    pub open spec fn wf(&self) -> bool {
        send_state_fits(self.plan(), self.state)
    }

    /// Whether the state is one that the plan allows.
    pub fn fits(&self) -> (b: bool)
        ensures
            b == self.wf(),
    {
        match self.state {
            SendState::PacketWritten { index, attempt } => index < self.packets.len() && 1
                <= attempt && attempt <= MAX_ATTEMPTS,
            SendState::AwaitReply { index, attempt } => index < self.packets.len() && 1 <= attempt
                && attempt <= MAX_ATTEMPTS,
            _ => true,
        }
    }

    /// Ends the session with the error `e`.
    fn fail(&mut self, e: TransferError) -> (action: Action)
        ensures
            final(self).plan() == old(self).plan(),
            (final(self).state, action@) == send_fail(e),
    {
        self.state = SendState::Failed(e);
        Action::Fail(e)
    }

    /// Writes the packet at `index`.
    fn write_packet(&mut self, index: usize, attempt: u8) -> (action: Action)
        requires
            index < old(self).packets@.len(),
        ensures
            final(self).plan() == old(self).plan(),
            final(self).state == (SendState::PacketWritten { index, attempt }),
            action@ == write_now(old(self).plan().packets[index as int]),
    {
        self.state = SendState::PacketWritten { index, attempt };
        Action::Write { bytes: slice_to_vec(self.packets[index].as_slice()), settle_ms: 0 }
    }

    /// Tells the server to exit if that was asked for.
    fn finish_up(&mut self) -> (action: Action)
        ensures
            final(self).plan() == old(self).plan(),
            (final(self).state, action@) == send_finish(old(self).plan()),
    {
        if self.finish {
            self.state = SendState::QuitWritten;
            let bytes: Vec<u8> = vec![QUIT];
            assert(bytes@ =~= seq![QUIT]);
            Action::Write { bytes, settle_ms: QUIT_SETTLE_MS }
        } else {
            self.state = SendState::Done;
            Action::Done
        }
    }

    /// Writes the first packet, if there is one.
    fn begin(&mut self) -> (action: Action)
        ensures
            final(self).plan() == old(self).plan(),
            (final(self).state, action@) == send_begin(old(self).plan()),
    {
        if self.packets.len() == 0 {
            self.finish_up()
        } else {
            self.write_packet(0, 1)
        }
    }

    /// Reads one byte next.
    fn read_byte(&mut self, next: SendState) -> (action: Action)
        ensures
            final(self).plan() == old(self).plan(),
            final(self).state == next,
            action@ == read_after(0, 1),
    {
        self.state = next;
        Action::Read { len: 1, settle_ms: 0 }
    }

    /// Acts on the answer `c` to the packet at `index`.
    fn reply(&mut self, index: usize, attempt: u8, c: u8) -> (action: Action)
        requires
            index < old(self).packets@.len(),
            1 <= attempt <= MAX_ATTEMPTS,
        ensures
            final(self).plan() == old(self).plan(),
            (final(self).state, action@) == send_reply(old(self).plan(), index, attempt, c),
    {
        if c == ACK {
            if self.packets.len() - index > 1 {
                self.write_packet(index + 1, 1)
            } else {
                self.state = SendState::EotWritten;
                let bytes: Vec<u8> = vec![EOT];
                assert(bytes@ =~= seq![EOT]);
                Action::Write { bytes, settle_ms: 0 }
            }
        } else if c == CAN {
            self.fail(TransferError::TransferCancelled)
        } else if attempt < MAX_ATTEMPTS {
            self.write_packet(index, attempt + 1)
        } else {
            self.fail(TransferError::RetryExhausted)
        }
    }

    /// Takes what happened on the transport and says what to do next.
    pub fn step(&mut self, event: Event) -> (action: Action)
        requires
            old(self).wf(),
        ensures
            final(self).plan() == old(self).plan(),
            (final(self).state, action@) == spec_send_step(
                old(self).plan(),
                old(self).state,
                event@,
            ),
            final(self).wf(),
    {
        proof {
            lemma_send_step_fits(self.plan(), self.state, event@);
        }
        let state = self.state;
        match state {
            SendState::Done => {
                return Action::Done;
            },
            SendState::Failed(e) => {
                return Action::Fail(e);
            },
            _ => {},
        }
        match event {
            Event::Failed => self.fail(TransferError::TransportIO),
            Event::Start => match state {
                SendState::Idle => {
                    if self.server {
                        self.state = SendState::CommandWritten;
                        Action::Write {
                            bytes: slice_to_vec(self.command.as_slice()),
                            settle_ms: 0,
                        }
                    } else {
                        self.read_byte(SendState::AwaitSolicit)
                    }
                },
                _ => self.fail(TransferError::ProtocolViolation),
            },
            Event::Written => match state {
                SendState::CommandWritten => self.read_byte(SendState::AwaitCommandAck),
                SendState::PacketWritten { index, attempt } => self.read_byte(
                    SendState::AwaitReply { index, attempt },
                ),
                SendState::EotWritten => self.read_byte(SendState::AwaitFinalAck),
                SendState::QuitWritten => {
                    self.state = SendState::Done;
                    Action::Done
                },
                _ => self.fail(TransferError::ProtocolViolation),
            },
            Event::Received(bytes) => {
                if bytes.len() == 0 {
                    self.fail(TransferError::TransportIO)
                } else {
                    match state {
                        SendState::AwaitCommandAck => {
                            if bytes[0] == ACK {
                                self.read_byte(SendState::AwaitReady)
                            } else {
                                self.fail(TransferError::ProtocolViolation)
                            }
                        },
                        SendState::AwaitReady => {
                            if bytes[0] == READY {
                                self.begin()
                            } else {
                                self.fail(TransferError::ProtocolViolation)
                            }
                        },
                        SendState::AwaitSolicit => self.begin(),
                        SendState::AwaitReply { index, attempt } => self.reply(
                            index,
                            attempt,
                            bytes[0],
                        ),
                        SendState::AwaitFinalAck => {
                            if bytes[0] == ACK {
                                self.finish_up()
                            } else {
                                self.fail(TransferError::ProtocolViolation)
                            }
                        },
                        _ => self.fail(TransferError::ProtocolViolation),
                    }
                }
            },
        }
    }
}

/// Makes the session that sends a file to the XModem server: the command
/// packet for a put, then Conn4x packets.
pub fn send_file_conn4x(file_name: &[u8], file_contents: &[u8], finish: bool) -> (session:
    XmodemSender)
    requires
        file_name.len() <= MAX_NAME,
    ensures
        session.plan() == (SendPlan {
            packets: spec_conn4x_packets(file_contents@),
            command: spec_command_packet(file_name@, CMD_PUT),
            server: true,
            finish,
        }),
        session.state == SendState::Idle,
        session.wf(),
{
    XmodemSender {
        packets: data_to_conn4x_packets(file_contents),
        command: create_command_packet(file_name, 'P'),
        server: true,
        finish,
        state: SendState::Idle,
    }
}

/// Makes the session that sends a file to the calculator's own receive
/// command: packets of 128 bytes with the one-byte check, once the
/// receiver has asked for the first.
pub fn send_file_normal(file_contents: &[u8]) -> (session: XmodemSender)
    ensures
        session.plan() == (SendPlan {
            packets: spec_packets_128(file_contents@, 0, ChecksumMode::Normal),
            command: Seq::empty(),
            server: false,
            finish: false,
        }),
        session.state == SendState::Idle,
        session.wf(),
{
    XmodemSender {
        packets: data_to_128_packets(file_contents, 0, ChecksumMode::Normal),
        command: Vec::new(),
        server: false,
        finish: false,
        state: SendState::Idle,
    }
}

/// Where a receiving session stands.
#[derive(Clone, Copy, Debug, PartialEq, Eq, Structural)]
pub enum RecvState {
    /// Not begun.
    Idle,
    /// The command packet is being written.
    CommandWritten,
    /// The server's answer to the command is being read.
    AwaitCommandAck,
    /// The answer that asks for a packet is being written: the packet is
    /// asked for the `attempt`th time.
    ReplyWritten { attempt: u8 },
    /// A frame is being read.
    AwaitFrame { attempt: u8 },
    /// The answer to the end of transmission is being written.
    FinalAckWritten,
    /// The server is being told to exit.
    QuitWritten,
    /// Ended well.
    Done,
    /// Ended with an error.
    Failed(TransferError),
}

/// What a receiving session was made with.
pub struct RecvPlan {
    /// The command packet for the XModem server.
    pub command: Seq<u8>,
    /// Whether the other side is the calculator's own send command, which
    /// takes no command, and not the XModem server.
    pub direct: bool,
    /// Whether the server is told to exit at the end.
    pub finish: bool,
}

/// A receiving session.
pub struct XmodemReceiver {
    /// The command packet for the XModem server.
    pub command: Vec<u8>,
    /// Whether the other side is the calculator's own send command.
    pub direct: bool,
    /// Whether the server is told to exit at the end.
    pub finish: bool,
    /// Where the session stands.
    pub state: RecvState,
    /// The file as far as it has been received.
    pub data: Vec<u8>,
}

/// What a step of a receiving session leads to.
pub struct RecvOutcome {
    /// Where the session stands after the step.
    pub state: RecvState,
    /// The file as far as it has been received.
    pub data: Seq<u8>,
    /// What to do next.
    pub action: ActionView,
}

/// The attempt that the state counts is within the bound.
pub open spec fn recv_state_fits(state: RecvState) -> bool {
    match state {
        RecvState::ReplyWritten { attempt } => 1 <= attempt <= MAX_ATTEMPTS,
        RecvState::AwaitFrame { attempt } => 1 <= attempt <= MAX_ATTEMPTS,
        _ => true,
    }
}

/// The session ends with the error `e`; what was received stays.
pub open spec fn recv_fail(data: Seq<u8>, e: TransferError) -> RecvOutcome {
    RecvOutcome { state: RecvState::Failed(e), data, action: ActionView::Fail(e) }
}

/// The first packet is asked for.
pub open spec fn recv_solicit(data: Seq<u8>) -> RecvOutcome {
    RecvOutcome {
        state: RecvState::ReplyWritten { attempt: 1 },
        data,
        action: write_after(SOLICIT_SETTLE_MS, seq![NAK]),
    }
}

/// What follows a frame. A packet is appended and acknowledged. A damaged
/// frame is asked for again, unless the packet has been asked for
/// `MAX_ATTEMPTS` times. At the end of transmission the zero bytes at the
/// end of the file are taken off. When the sender cancels, nothing of the
/// file is kept.
pub open spec fn recv_frame(data: Seq<u8>, attempt: u8, frame: Seq<u8>) -> RecvOutcome {
    match spec_classify_frame(frame) {
        FrameKind::EndOfTransmission => RecvOutcome {
            state: RecvState::FinalAckWritten,
            data: data.take(trimmed_len(data) as int),
            action: write_now(seq![ACK]),
        },
        FrameKind::Cancelled => recv_fail(Seq::empty(), TransferError::TransferCancelled),
        FrameKind::Data => RecvOutcome {
            state: RecvState::ReplyWritten { attempt: 1 },
            data: data + frame_payload(frame),
            action: write_now(seq![ACK]),
        },
        FrameKind::Damaged => if attempt < MAX_ATTEMPTS {
            RecvOutcome {
                state: RecvState::ReplyWritten { attempt: (attempt + 1) as u8 },
                data,
                action: write_now(seq![NAK]),
            }
        } else {
            recv_fail(data, TransferError::RetryExhausted)
        },
    }
}

/// The next state, the file so far and the next action of a receiving
/// session.
///
/// A session that has ended stays as it is. A transport failure ends the
/// session, and so does an event that the state does not wait for. The
/// server must acknowledge the command.
pub open spec fn spec_recv_step(plan: RecvPlan, state: RecvState, data: Seq<u8>, event: EventView)
    -> RecvOutcome {
    match state {
        RecvState::Done => RecvOutcome { state, data, action: ActionView::Done },
        RecvState::Failed(e) => recv_fail(data, e),
        _ => match event {
            EventView::Failed => recv_fail(data, TransferError::TransportIO),
            EventView::Start => match state {
                RecvState::Idle => if plan.direct {
                    recv_solicit(data)
                } else {
                    RecvOutcome {
                        state: RecvState::CommandWritten,
                        data,
                        action: write_now(plan.command),
                    }
                },
                _ => recv_fail(data, TransferError::ProtocolViolation),
            },
            EventView::Written => match state {
                RecvState::CommandWritten => RecvOutcome {
                    state: RecvState::AwaitCommandAck,
                    data,
                    action: read_after(0, 1),
                },
                RecvState::ReplyWritten { attempt } => RecvOutcome {
                    state: RecvState::AwaitFrame { attempt },
                    data,
                    action: read_after(FRAME_SETTLE_MS, FRAME_LEN),
                },
                RecvState::FinalAckWritten => if plan.finish {
                    RecvOutcome {
                        state: RecvState::QuitWritten,
                        data,
                        action: write_after(QUIT_SETTLE_MS, seq![QUIT]),
                    }
                } else {
                    RecvOutcome { state: RecvState::Done, data, action: ActionView::Done }
                },
                RecvState::QuitWritten => RecvOutcome {
                    state: RecvState::Done,
                    data,
                    action: ActionView::Done,
                },
                _ => recv_fail(data, TransferError::ProtocolViolation),
            },
            EventView::Received(bytes) => match state {
                RecvState::AwaitCommandAck => if bytes.len() >= 1 && bytes[0] == ACK {
                    recv_solicit(data)
                } else {
                    recv_fail(data, TransferError::ProtocolViolation)
                },
                RecvState::AwaitFrame { attempt } => recv_frame(data, attempt, bytes),
                _ => recv_fail(data, TransferError::ProtocolViolation),
            },
        },
    }
}

/// A receiving session stays within its bound: from a state whose attempt
/// is within the bound, every event leads to such a state, so that no
/// packet is asked for more than `MAX_ATTEMPTS` times.
pub proof fn lemma_recv_step_fits(plan: RecvPlan, state: RecvState, data: Seq<u8>, event: EventView)
    requires
        recv_state_fits(state),
    ensures
        recv_state_fits(spec_recv_step(plan, state, data, event).state),
{
}

/// What was received is kept: a step leaves the file as it is, appends a
/// packet's payload to it, takes zero bytes off its end when the
/// transmission ends, or drops it when the sender cancels.
pub proof fn lemma_recv_step_data(plan: RecvPlan, state: RecvState, data: Seq<u8>, event: EventView)
    ensures
        ({
            let after = spec_recv_step(plan, state, data, event);
            ||| after.data == data
            ||| exists|payload: Seq<u8>|
                payload.len() == BLOCK && after.data == data + payload && after.action == write_now(
                    seq![ACK],
                )
            ||| after.data == data.take(trimmed_len(data) as int) && after.state
                == RecvState::FinalAckWritten
            ||| after.data == Seq::<u8>::empty() && after.state == RecvState::Failed(
                TransferError::TransferCancelled,
            )
        }),
{
    let after = spec_recv_step(plan, state, data, event);
    if let RecvState::AwaitFrame { attempt } = state {
        if let EventView::Received(bytes) = event {
            if spec_classify_frame(bytes) == FrameKind::Data {
                let payload = frame_payload(bytes);
                assert(payload.len() == BLOCK && after.data == data + payload);
            }
        }
    }
}

/// A packet of the sending side is taken by the receiving side: the small
/// packet at index `i` for a file, in the normal mode, is acknowledged,
/// and the block of the file that it was made from is appended, filled up
/// with `SUB` where the file ended before.
pub proof fn lemma_receive_sent_packet(
    plan: RecvPlan,
    data: Seq<u8>,
    attempt: u8,
    file: Seq<u8>,
    i: int,
    offset: int,
)
    requires
        0 <= i,
    ensures
        spec_recv_step(
            plan,
            RecvState::AwaitFrame { attempt },
            data,
            EventView::Received(spec_packet_128(file, i, offset, ChecksumMode::Normal)),
        ) == (RecvOutcome {
            state: RecvState::ReplyWritten { attempt: 1 },
            data: data + crate::xmodem::padded_block(file, BLOCK * i),
            action: write_now(seq![ACK]),
        }),
{
    crate::xmodem::lemma_packet_is_accepted(file, i, offset);
}

impl XmodemReceiver {
    /// What the session was made with.
    pub open spec fn plan(&self) -> RecvPlan {
        RecvPlan { command: self.command@, direct: self.direct, finish: self.finish }
    }

    /// The attempt that the state counts is within the bound.
    pub open spec fn wf(&self) -> bool {
        recv_state_fits(self.state)
    }

    /// The session as the outcome of a step, with the action `action`.
    pub open spec fn outcome(&self, action: ActionView) -> RecvOutcome {
        RecvOutcome { state: self.state, data: self.data@, action }
    }

    /// Whether the attempt that the state counts is within the bound.
    pub fn fits(&self) -> (b: bool)
        ensures
            b == self.wf(),
    {
        match self.state {
            RecvState::ReplyWritten { attempt } => 1 <= attempt && attempt <= MAX_ATTEMPTS,
            RecvState::AwaitFrame { attempt } => 1 <= attempt && attempt <= MAX_ATTEMPTS,
            _ => true,
        }
    }

    /// Ends the session with the error `e`.
    fn fail(&mut self, e: TransferError) -> (action: Action)
        ensures
            final(self).plan() == old(self).plan(),
            final(self).outcome(action@) == recv_fail(old(self).data@, e),
    {
        self.state = RecvState::Failed(e);
        Action::Fail(e)
    }

    /// Writes the one byte `byte` after `settle_ms` milliseconds.
    fn write_byte(&mut self, next: RecvState, byte: u8, settle_ms: u64) -> (action: Action)
        ensures
            final(self).plan() == old(self).plan(),
            final(self).state == next,
            final(self).data@ == old(self).data@,
            action@ == write_after(settle_ms, seq![byte]),
    {
        self.state = next;
        let bytes: Vec<u8> = vec![byte];
        assert(bytes@ =~= seq![byte]);
        Action::Write { bytes, settle_ms }
    }

    /// Acts on a frame.
    fn frame(&mut self, attempt: u8, frame: &[u8]) -> (action: Action)
        requires
            1 <= attempt <= MAX_ATTEMPTS,
        ensures
            final(self).plan() == old(self).plan(),
            final(self).outcome(action@) == recv_frame(old(self).data@, attempt, frame@),
    {
        match classify_frame(frame) {
            FrameKind::EndOfTransmission => {
                trim_trailing_zeros(&mut self.data);
                self.write_byte(RecvState::FinalAckWritten, ACK, 0)
            },
            FrameKind::Cancelled => {
                self.data = Vec::new();
                self.fail(TransferError::TransferCancelled)
            },
            FrameKind::Data => {
                let payload = slice_subrange(frame, 3, 3 + BLOCK);
                let mut i: usize = 0;
                let ghost before = self.data@;
                while i < BLOCK
                    invariant
                        i <= BLOCK,
                        payload@.len() == BLOCK,
                        self.data@ == before + payload@.take(i as int),
                        self.plan() == old(self).plan(),
                    decreases BLOCK - i,
                {
                    self.data.push(payload[i]);
                    assert(payload@.take(i + 1) =~= payload@.take(i as int).push(payload@[i as int]));
                    i += 1;
                }
                assert(payload@.take(BLOCK as int) =~= payload@);
                self.write_byte(RecvState::ReplyWritten { attempt: 1 }, ACK, 0)
            },
            FrameKind::Damaged => {
                if attempt < MAX_ATTEMPTS {
                    self.write_byte(RecvState::ReplyWritten { attempt: attempt + 1 }, NAK, 0)
                } else {
                    self.fail(TransferError::RetryExhausted)
                }
            },
        }
    }

    /// Takes what happened on the transport and says what to do next.
    pub fn step(&mut self, event: Event) -> (action: Action)
        requires
            old(self).wf(),
        ensures
            final(self).plan() == old(self).plan(),
            final(self).outcome(action@) == spec_recv_step(
                old(self).plan(),
                old(self).state,
                old(self).data@,
                event@,
            ),
            final(self).wf(),
    {
        proof {
            lemma_recv_step_fits(self.plan(), self.state, self.data@, event@);
        }
        let state = self.state;
        match state {
            RecvState::Done => {
                return Action::Done;
            },
            RecvState::Failed(e) => {
                return Action::Fail(e);
            },
            _ => {},
        }
        match event {
            Event::Failed => self.fail(TransferError::TransportIO),
            Event::Start => match state {
                RecvState::Idle => {
                    if self.direct {
                        self.write_byte(
                            RecvState::ReplyWritten { attempt: 1 },
                            NAK,
                            SOLICIT_SETTLE_MS,
                        )
                    } else {
                        self.state = RecvState::CommandWritten;
                        Action::Write {
                            bytes: slice_to_vec(self.command.as_slice()),
                            settle_ms: 0,
                        }
                    }
                },
                _ => self.fail(TransferError::ProtocolViolation),
            },
            Event::Written => match state {
                RecvState::CommandWritten => {
                    self.state = RecvState::AwaitCommandAck;
                    Action::Read { len: 1, settle_ms: 0 }
                },
                RecvState::ReplyWritten { attempt } => {
                    self.state = RecvState::AwaitFrame { attempt };
                    Action::Read { len: FRAME_LEN, settle_ms: FRAME_SETTLE_MS }
                },
                RecvState::FinalAckWritten => {
                    if self.finish {
                        self.write_byte(RecvState::QuitWritten, QUIT, QUIT_SETTLE_MS)
                    } else {
                        self.state = RecvState::Done;
                        Action::Done
                    }
                },
                RecvState::QuitWritten => {
                    self.state = RecvState::Done;
                    Action::Done
                },
                _ => self.fail(TransferError::ProtocolViolation),
            },
            Event::Received(bytes) => match state {
                RecvState::AwaitCommandAck => {
                    if bytes.len() >= 1 && bytes[0] == ACK {
                        self.write_byte(
                            RecvState::ReplyWritten { attempt: 1 },
                            NAK,
                            SOLICIT_SETTLE_MS,
                        )
                    } else {
                        self.fail(TransferError::ProtocolViolation)
                    }
                },
                RecvState::AwaitFrame { attempt } => self.frame(attempt, bytes.as_slice()),
                _ => self.fail(TransferError::ProtocolViolation),
            },
        }
    }
}

/// Makes the session that receives a file. Unless the other side is the
/// calculator's own send command (`direct`), the XModem server is first
/// told which file to send.
pub fn get_file(file_name: &[u8], direct: bool, finish: bool) -> (session: XmodemReceiver)
    requires
        file_name.len() <= MAX_NAME,
    ensures
        session.plan() == (RecvPlan {
            command: spec_command_packet(file_name@, CMD_GET),
            direct,
            finish,
        }),
        session.state == RecvState::Idle,
        session.data@ == Seq::<u8>::empty(),
        session.wf(),
{
    XmodemReceiver {
        command: create_command_packet(file_name, 'G'),
        direct,
        finish,
        state: RecvState::Idle,
        data: Vec::new(),
    }
}

} // verus!
