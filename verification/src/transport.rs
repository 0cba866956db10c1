//! What the engine is told about a read on a socket or a stream.

use vstd::prelude::*;

verus! {

/// How a blocking read ended.
#[derive(Clone, Copy, Debug, PartialEq, Eq)]
pub enum ReadOutcome {
    /// Bytes were read.
    Data,
    /// Nothing arrived within the idle timeout.
    TimedOut,
    /// The peer refused the connection.
    ConnectionRefused,
    /// The stream ended before a full frame was read.
    EndOfStream,
    /// Any other failure.
    Failed,
}

} // verus!
