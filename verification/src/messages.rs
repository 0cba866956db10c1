//! The few messages besides packets: the opening of a stream, its
//! acknowledgment, and the probe that asks whether a responder is there.

use vstd::prelude::*;

verus! {

/// What a client states when it opens a stream.
#[derive(Clone, Copy, Debug, PartialEq, Eq)]
pub struct InitMessage {
    /// The size of every packet that the client is going to send.
    pub packet_size: usize,
}

/// The acknowledgment of an opening: the two letters `OK`.
pub open spec fn ack_bytes() -> Seq<u8> {
    seq![0x4f, 0x4b]
}

/// The probe sent ahead of a run over datagrams: the letters `_client_`.
pub open spec fn probe_bytes() -> Seq<u8> {
    seq![0x5f, 0x63, 0x6c, 0x69, 0x65, 0x6e, 0x74, 0x5f]
}

/// The acknowledgment of an opening.
pub fn ack() -> (out: Vec<u8>)
    ensures
        out@ == ack_bytes(),
{
    let mut out: Vec<u8> = Vec::with_capacity(2);
    out.push(0x4f);
    out.push(0x4b);
    assert(out@ =~= ack_bytes());
    out
}

/// Whether `response` is the acknowledgment and nothing else.
pub fn is_ack(response: &[u8]) -> (b: bool)
    ensures
        b == (response@ == ack_bytes()),
{
    let b = response.len() == 2 && response[0] == 0x4f && response[1] == 0x4b;
    proof {
        if b {
            assert(response@ =~= ack_bytes());
        }
    }
    b
}

/// The probe sent ahead of a run over datagrams.
pub fn probe() -> (out: Vec<u8>)
    ensures
        out@ == probe_bytes(),
{
    let mut out: Vec<u8> = Vec::with_capacity(8);
    out.push(0x5f);
    out.push(0x63);
    out.push(0x6c);
    out.push(0x69);
    out.push(0x65);
    out.push(0x6e);
    out.push(0x74);
    out.push(0x5f);
    assert(out@ =~= probe_bytes());
    out
}

} // verus!
