//! The echo responder for one stream.
//!
//! A stream opens with a message that states the packet size. Once that is
//! acknowledged, the client's packets follow one another without gaps,
//! and each is answered with a packet of sixteen bytes.

use crate::codec::{decode_packet, encode_packet, header_of, packet_bytes, Header, HEADER_LEN};
use crate::messages::{ack, ack_bytes, InitMessage};
use crate::test_parameters::MIN_PACKET_SIZE;
use crate::transport::ReadOutcome;
use crate::binary64::{seconds_bits, timestamp_to_bits};
use crate::timespan::TimeSpan;
use vstd::prelude::*;

verus! {

/// Where a stream stands.
#[derive(Clone, Copy, Debug, PartialEq, Eq)]
pub enum SessionState {
    /// Nothing was read yet; the opening message is awaited.
    AwaitingInit,
    /// The opening was acknowledged; packets of this size are awaited.
    Echoing { packet_size: usize },
    /// The stream is done with.
    Closed,
}

/// What the responder does next on a stream.
#[derive(Clone, Debug, PartialEq, Eq)]
pub enum SessionAction {
    /// Write these bytes, then read the next packet.
    Send(Vec<u8>),
    /// Write nothing and read the next packet.
    Skip,
    /// Give the stream up.
    Close,
}

/// Whether an opening can be served: it was read, it was understood, and
/// its packet size can hold a header.
pub open spec fn opening_accepted(outcome: ReadOutcome, message: Option<InitMessage>) -> bool {
    outcome == ReadOutcome::Data && message.is_some() && message.unwrap().packet_size
        >= MIN_PACKET_SIZE
}

/// The state after the read of the opening message.
pub open spec fn state_after_init(
    state: SessionState,
    outcome: ReadOutcome,
    message: Option<InitMessage>,
) -> SessionState {
    if state == SessionState::AwaitingInit && opening_accepted(outcome, message) {
        SessionState::Echoing { packet_size: message.unwrap().packet_size }
    } else {
        SessionState::Closed
    }
}

/// The state after the read of a packet: the stream goes on for as long as
/// reads give data.
pub open spec fn state_after_frame(state: SessionState, outcome: ReadOutcome) -> SessionState {
    if state is Echoing && outcome == ReadOutcome::Data {
        state
    } else {
        SessionState::Closed
    }
}

/// The answer to the packet `frame` at the time that `timestamp_bits`
/// encodes: the index of the packet, the timestamp, and no filler.
pub open spec fn stream_reply(frame: Seq<u8>, timestamp_bits: u64) -> Seq<u8>
    recommends
        frame.len() >= HEADER_LEN,
{
    packet_bytes(Header { index: header_of(frame).unwrap().index, timestamp_bits }, 16)
}

/// The responder's side of one stream.
pub struct TcpSession {
    state: SessionState,
}

impl TcpSession {
    #[verifier::type_invariant]
    spec fn sized(self) -> bool {
        self.state matches SessionState::Echoing { packet_size } ==> packet_size >= MIN_PACKET_SIZE
    }

    /// Where the stream stands.
    pub closed spec fn state(&self) -> SessionState {
        self.state
    }

    /// The responder's side of a stream that was just accepted.
    pub fn new() -> (session: TcpSession)
        ensures
            session.state() == SessionState::AwaitingInit,
    {
        TcpSession { state: SessionState::AwaitingInit }
    }

    /// Where the stream stands.
    pub fn current_state(&self) -> (state: SessionState)
        ensures
            state == self.state(),
            state matches SessionState::Echoing { packet_size } ==> packet_size >= MIN_PACKET_SIZE,
    {
        proof {
            use_type_invariant(self);
        }
        self.state
    }

    /// Takes in the read of the opening message, as far as the caller
    /// could make it out. An opening that can be served is acknowledged;
    /// anything else closes the stream, as does an opening on a stream
    /// that was opened before.
    pub fn on_init(&mut self, outcome: ReadOutcome, message: Option<InitMessage>) -> (action:
        SessionAction)
        ensures
            final(self).state() == state_after_init(old(self).state(), outcome, message),
            match action {
                SessionAction::Send(bytes) => final(self).state() is Echoing && bytes@
                    == ack_bytes(),
                SessionAction::Skip => false,
                SessionAction::Close => final(self).state() == SessionState::Closed,
            },
    {
        let fresh = match self.state {
            SessionState::AwaitingInit => true,
            _ => false,
        };
        let served = match (outcome, message) {
            (ReadOutcome::Data, Some(m)) => if fresh && m.packet_size >= MIN_PACKET_SIZE {
                Some(m.packet_size)
            } else {
                None
            },
            _ => None,
        };
        match served {
            Some(packet_size) => {
                self.state = SessionState::Echoing { packet_size };
                SessionAction::Send(ack())
            },
            None => {
                self.state = SessionState::Closed;
                SessionAction::Close
            },
        }
    }

    /// Takes in the read of one packet at the time `now`. A full packet is
    /// answered with its index and that time; data of
    /// another length is passed over. The end of the stream and every
    /// failure close the stream, as does a packet on a stream that is not
    /// open.
    pub fn on_frame(&mut self, outcome: ReadOutcome, frame: &[u8], now: TimeSpan) -> (action:
        SessionAction)
        ensures
            final(self).state() == state_after_frame(old(self).state(), outcome),
            match action {
                SessionAction::Send(bytes) => {
                    &&& old(self).state() == (SessionState::Echoing {
                        packet_size: frame@.len() as usize,
                    })
                    &&& outcome == ReadOutcome::Data
                    &&& bytes@ == stream_reply(frame@, seconds_bits(now@))
                },
                SessionAction::Skip => {
                    &&& old(self).state() is Echoing
                    &&& old(self).state() != (SessionState::Echoing {
                        packet_size: frame@.len() as usize,
                    })
                    &&& outcome == ReadOutcome::Data
                },
                SessionAction::Close => !(old(self).state() is Echoing) || outcome
                    != ReadOutcome::Data,
            },
    {
        proof {
            use_type_invariant(&*self);
        }
        let expected = match self.state {
            SessionState::Echoing { packet_size } => Some(packet_size),
            _ => None,
        };
        let readable = match outcome {
            ReadOutcome::Data => true,
            _ => false,
        };
        match expected {
            Some(packet_size) => {
                if !readable {
                    self.state = SessionState::Closed;
                    SessionAction::Close
                } else if frame.len() != packet_size {
                    SessionAction::Skip
                } else {
                    match decode_packet(frame) {
                        Some(header) => SessionAction::Send(
                            encode_packet(
                                Header {
                                    index: header.index,
                                    timestamp_bits: timestamp_to_bits(&now),
                                },
                                HEADER_LEN,
                            ),
                        ),
                        None => SessionAction::Skip,
                    }
                }
            },
            None => {
                self.state = SessionState::Closed;
                SessionAction::Close
            },
        }
    }
}

} // verus!
