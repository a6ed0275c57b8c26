//! What a transfer session asks of the transport and what it is told of it.
//!
//! A session never touches the transport. It hands out an action, the
//! caller performs it on the serial line and reports what happened as an
//! event, and the session answers with the next action, until the action is
//! `Done` or `Fail`.

use crate::error::TransferError;
use vstd::prelude::*;

verus! {

/// What the caller is to do next.
#[derive(Clone, Debug, PartialEq, Eq)]
pub enum Action {
    /// Wait `settle_ms` milliseconds, write `bytes`, and report `Written`.
    Write { bytes: Vec<u8>, settle_ms: u64 },
    /// Wait `settle_ms` milliseconds, read into a buffer of `len` bytes,
    /// and report the buffer as `Received`.
    Read { len: usize, settle_ms: u64 },
    /// The session has ended well.
    Done,
    /// The session has ended with an error.
    Fail(TransferError),
}

/// An action with its bytes as a sequence.
pub enum ActionView {
    /// Wait, then write `bytes`.
    Write { bytes: Seq<u8>, settle_ms: u64 },
    /// Wait, then read into a buffer of `len` bytes.
    Read { len: usize, settle_ms: u64 },
    /// The session has ended well.
    Done,
    /// The session has ended with an error.
    Fail(TransferError),
}

impl View for Action {
    type V = ActionView;

    open spec fn view(&self) -> ActionView {
        match self {
            Action::Write { bytes, settle_ms } => ActionView::Write {
                bytes: bytes@,
                settle_ms: *settle_ms,
            },
            Action::Read { len, settle_ms } => ActionView::Read {
                len: *len,
                settle_ms: *settle_ms,
            },
            Action::Done => ActionView::Done,
            Action::Fail(e) => ActionView::Fail(*e),
        }
    }
}

/// What happened on the transport.
#[derive(Clone, Debug, PartialEq, Eq)]
pub enum Event {
    /// The session is to begin.
    Start,
    /// The bytes of the last `Write` went out.
    Written,
    /// The buffer of the last `Read`, as it stands after the read.
    Received(Vec<u8>),
    /// The transport failed or timed out.
    Failed,
}

/// An event with its bytes as a sequence.
pub enum EventView {
    /// The session is to begin.
    Start,
    /// The bytes of the last write went out.
    Written,
    /// The buffer of the last read.
    Received(Seq<u8>),
    /// The transport failed or timed out.
    Failed,
}

impl View for Event {
    type V = EventView;

    open spec fn view(&self) -> EventView {
        match self {
            Event::Start => EventView::Start,
            Event::Written => EventView::Written,
            Event::Received(bytes) => EventView::Received(bytes@),
            Event::Failed => EventView::Failed,
        }
    }
}

/// The action that writes `bytes` at once.
pub open spec fn write_now(bytes: Seq<u8>) -> ActionView {
    ActionView::Write { bytes, settle_ms: 0 }
}

/// The action that writes `bytes` after `settle_ms` milliseconds.
pub open spec fn write_after(settle_ms: u64, bytes: Seq<u8>) -> ActionView {
    ActionView::Write { bytes, settle_ms }
}

/// The action that reads `len` bytes after `settle_ms` milliseconds.
pub open spec fn read_after(settle_ms: u64, len: usize) -> ActionView {
    ActionView::Read { len, settle_ms }
}

/// The contents of a list of packets as they go over the wire.
pub open spec fn frames_of(packets: Seq<Vec<u8>>) -> Seq<Seq<u8>> {
    packets.map_values(|p: Vec<u8>| p@)
}

} // verus!
