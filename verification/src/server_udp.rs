//! The stateless echo responder for datagrams.
//!
//! Every datagram is answered, whatever it holds: the answer repeats the
//! first eight bytes of the request as its index and carries the
//! responder's own timestamp.

use crate::codec::{
    filler,
    header_of,
    lemma_decode_encode,
    packet_bytes,
    Header,
    FILLER,
    HEADER_LEN,
};
use crate::wire::{be_bytes, be_value, lemma_be_value_of_bytes, push_word};
use crate::binary64::{seconds_bits, timestamp_to_bits};
use crate::timespan::TimeSpan;
use vstd::prelude::*;

verus! {

/// The largest datagram that the responder reads; longer ones are cut off
/// by the socket.
pub const MAX_DATAGRAM_LEN: usize = 1500;

/// The first eight bytes of `datagram`, with zeros where it is shorter.
pub open spec fn index_field(datagram: Seq<u8>) -> Seq<u8> {
    Seq::new(
        8,
        |i: int|
            if i < datagram.len() {
                datagram[i]
            } else {
                0u8
            },
    )
}

/// The length of the answer to a datagram of `len` bytes: the same length
/// under symmetric load if that can hold a header, sixteen bytes otherwise.
pub open spec fn reply_len(len: nat, symmetric_network_load: bool) -> nat {
    if symmetric_network_load && len >= 16 {
        len
    } else {
        16
    }
}

/// The answer to `datagram` at the time that `timestamp_bits` encodes.
pub open spec fn reply_bytes(
    datagram: Seq<u8>,
    timestamp_bits: u64,
    symmetric_network_load: bool,
) -> Seq<u8> {
    index_field(datagram) + be_bytes(timestamp_bits) + filler(
        (reply_len(datagram.len(), symmetric_network_load) - 16) as nat,
    )
}

/// The echo responder for datagrams. It holds nothing about its clients,
/// only whether it is still meant to serve.
pub struct ServerUdp {
    run: bool,
}

impl ServerUdp {
    /// Whether the responder is meant to go on serving.
    pub closed spec fn running(&self) -> bool {
        self.run
    }

    /// A responder that is meant to serve.
    pub fn new() -> (server: ServerUdp)
        ensures
            server.running(),
    {
        ServerUdp { run: true }
    }

    /// Tells the responder to serve no further datagram.
    pub fn stop(&mut self)
        ensures
            !final(self).running(),
    {
        self.run = false;
    }

    /// Whether the responder is meant to go on serving.
    pub fn is_running(&self) -> (b: bool)
        ensures
            b == self.running(),
    {
        self.run
    }

    /// Builds the answer to `datagram`, stamped with the time `now`.
    pub fn reply(&self, datagram: &[u8], now: TimeSpan, symmetric_network_load: bool) -> (out: Vec<
        u8,
    >)
        ensures
            out@ == reply_bytes(datagram@, seconds_bits(now@), symmetric_network_load),
            out@.len() == reply_len(datagram@.len(), symmetric_network_load),
    {
        let timestamp_bits = timestamp_to_bits(&now);
        let len = datagram.len();
        let size: usize = if symmetric_network_load && len >= HEADER_LEN {
            len
        } else {
            HEADER_LEN
        };
        let mut out: Vec<u8> = Vec::with_capacity(size);
        let mut i: usize = 0;
        while i < 8
            invariant
                i <= 8,
                len == datagram@.len(),
                out@ == index_field(datagram@).subrange(0, i as int),
            decreases 8 - i,
        {
            let b: u8 = if i < len {
                datagram[i]
            } else {
                0
            };
            out.push(b);
            assert(out@ =~= index_field(datagram@).subrange(0, i + 1));
            i = i + 1;
        }
        assert(out@ =~= index_field(datagram@));
        push_word(&mut out, timestamp_bits);
        let mut j: usize = HEADER_LEN;
        while j < size
            invariant
                16 <= j <= size,
                out@ == index_field(datagram@) + be_bytes(timestamp_bits) + filler((j - 16) as nat),
            decreases size - j,
        {
            out.push(FILLER);
            j = j + 1;
        }
        out
    }
}

/// The index field of a datagram that starts with eight bytes is those
/// eight bytes.
proof fn lemma_index_field_of_word(word: Seq<u8>, rest: Seq<u8>)
    requires
        word.len() == 8,
    ensures
        index_field(word + rest) == word,
{
    assert(index_field(word + rest) =~= word);
}

/// The answer to a well-formed packet is itself a packet: it carries the
/// index of the request and the responder's timestamp, and under symmetric
/// load it has the size of the request.
pub proof fn lemma_reply_echoes_index(
    header: Header,
    size: nat,
    timestamp_bits: u64,
    symmetric_network_load: bool,
)
    requires
        size >= HEADER_LEN,
    ensures
        reply_bytes(packet_bytes(header, size), timestamp_bits, symmetric_network_load)
            == packet_bytes(
            (Header { index: header.index, timestamp_bits }),
            reply_len(size, symmetric_network_load),
        ),
        header_of(reply_bytes(packet_bytes(header, size), timestamp_bits, symmetric_network_load))
            == Some(Header { index: header.index, timestamp_bits }),
{
    let word = be_bytes(header.index);
    let rest = be_bytes(header.timestamp_bits) + filler((size - 16) as nat);
    let answer = Header { index: header.index, timestamp_bits };
    lemma_be_value_of_bytes(header.index);
    lemma_be_value_of_bytes(header.timestamp_bits);
    assert(packet_bytes(header, size) =~= word + rest);
    assert(packet_bytes(header, size).len() == size);
    lemma_index_field_of_word(word, rest);
    lemma_decode_encode(answer, reply_len(size, symmetric_network_load));
}

/// A datagram that is no packet is answered all the same, with sixteen
/// bytes or more.
pub proof fn lemma_reply_always_decodes(
    datagram: Seq<u8>,
    timestamp_bits: u64,
    symmetric_network_load: bool,
)
    ensures
        header_of(reply_bytes(datagram, timestamp_bits, symmetric_network_load)) == Some(
            Header { index: be_value(index_field(datagram)) as u64, timestamp_bits },
        ),
{
    let r = reply_bytes(datagram, timestamp_bits, symmetric_network_load);
    lemma_be_value_of_bytes(timestamp_bits);
    assert(r.subrange(0, 8) =~= index_field(datagram));
    assert(r.subrange(8, 16) =~= be_bytes(timestamp_bits));
}

} // verus!
