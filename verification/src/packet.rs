//! The records that the two tasks of a run keep: one per packet sent, one
//! per reply received.

use crate::timespan::{TimeSpan, MAX_NANOS};
use vstd::prelude::*;

verus! {

/// A packet that went out.
#[derive(Clone, Copy, Debug, PartialEq, Eq)]
pub struct SentPacket {
    /// The index written into the packet; the first packet of a run has 0.
    pub index: u64,
    /// Time since the start of the run at which the packet was built.
    pub sent_duration: TimeSpan,
    /// Wall-clock time since the Unix epoch at which the packet was built.
    pub sent_timestamp: TimeSpan,
}

/// A reply that came back.
#[derive(Clone, Copy, Debug, PartialEq, Eq)]
pub struct ReceivedPacket {
    /// The index read from the reply.
    pub index: u64,
    /// Time since the start of the run at which the reply arrived.
    pub received_duration: TimeSpan,
    /// Wall-clock time since the Unix epoch at which the reply arrived.
    pub received_timestamp: TimeSpan,
    /// Wall-clock time since the Unix epoch that the responder wrote into
    /// the reply.
    pub server_timestamp: TimeSpan,
}

impl SentPacket {
    /// Whether both times of the record are spans that can be built.
    pub open spec fn wf(self) -> bool {
        self.sent_duration@ <= MAX_NANOS && self.sent_timestamp@ <= MAX_NANOS
    }
}

impl ReceivedPacket {
    /// Whether all times of the record are spans that can be built.
    pub open spec fn wf(self) -> bool {
        self.received_duration@ <= MAX_NANOS && self.received_timestamp@ <= MAX_NANOS
            && self.server_timestamp@ <= MAX_NANOS
    }
}

} // verus!
