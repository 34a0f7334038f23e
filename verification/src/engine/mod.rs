//! The clock engine's messages and the decisions it takes on them: which
//! real-time bytes matter, where the output transport position stands, and
//! (in the submodules) per-output tick positions and start/stop/resync rules.
pub mod estimator;
pub mod scheduler;
pub mod stream;
pub mod transport;

use std::time::Instant;
use vstd::prelude::*;

verus! {

/// Real-time MIDI status bytes this app cares about.
pub const CLOCK: u8 = 0xF8;
pub const START: u8 = 0xFA;
pub const CONTINUE: u8 = 0xFB;
pub const STOP: u8 = 0xFC;

/// A real-time MIDI message relevant to this app, mapped from its status byte.
#[derive(Debug, Clone, Copy, PartialEq, Eq, Structural)]
pub enum RtMsg {
    Clock,
    Start,
    Continue,
    Stop,
}

/// The message a status byte stands for: clock, start, continue and stop;
/// every other byte (active sensing `0xFE` included) stands for none.
pub open spec fn rt_msg_of(byte: u8) -> Option<RtMsg> {
    if byte == CLOCK {
        Some(RtMsg::Clock)
    } else if byte == START {
        Some(RtMsg::Start)
    } else if byte == CONTINUE {
        Some(RtMsg::Continue)
    } else if byte == STOP {
        Some(RtMsg::Stop)
    } else {
        None
    }
}

/// The status byte of each message.
pub open spec fn status_byte_of(msg: RtMsg) -> u8 {
    match msg {
        RtMsg::Clock => CLOCK,
        RtMsg::Start => START,
        RtMsg::Continue => CONTINUE,
        RtMsg::Stop => STOP,
    }
}

impl RtMsg {
    /// Maps a real-time status byte to an [`RtMsg`], or `None` for anything else.
    pub fn from_status_byte(byte: u8) -> (r: Option<Self>)
        ensures
            r == rt_msg_of(byte),
    {
        if byte == CLOCK {
            Some(RtMsg::Clock)
        } else if byte == START {
            Some(RtMsg::Start)
        } else if byte == CONTINUE {
            Some(RtMsg::Continue)
        } else if byte == STOP {
            Some(RtMsg::Stop)
        } else {
            None
        }
    }
}

/// Decoding a message's own status byte gives the message back, and a byte
/// decodes to a message only if it is that message's status byte.
pub proof fn lemma_status_byte_round_trip(msg: RtMsg, byte: u8)
    ensures
        rt_msg_of(status_byte_of(msg)) == Some(msg),
        rt_msg_of(byte) matches Some(m) ==> status_byte_of(m) == byte,
{
}

/// A timestamped [`RtMsg`], produced by an input callback and queued for the
/// engine thread.
#[derive(Debug, Clone, Copy)]
pub struct InputEvent {
    pub at: Instant,
    pub msg: RtMsg,
}

/// Per-output connection status, part of the published snapshot.
#[derive(Debug, Clone)]
pub struct OutputStatus {
    pub name: String,
    pub connected: bool,
}

/// The output (shifted) transport position, for the beat display.
#[derive(Debug, Clone, Copy, PartialEq, Eq, Structural)]
pub struct OutputPosition {
    pub tick_in_bar: u32,
    pub bar_in_phrase: u32,
}

} // verus!
