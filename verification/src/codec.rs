//! The wire packet: an index, a timestamp word and filler.
//!
//! Bytes 0 to 7 hold the packet index and bytes 8 to 15 the bit pattern of
//! a 64-bit IEEE 754 number of seconds since the Unix epoch, both most
//! significant byte first. Every further byte is filler of value 1.

use crate::wire::{be_bytes, be_value, lemma_be_value_of_bytes, push_word, read_word};
use vstd::prelude::*;

verus! {

/// Bytes taken by the index and the timestamp; no packet is shorter.
pub const HEADER_LEN: usize = 16;

/// The value of every byte behind the header.
pub const FILLER: u8 = 1;

/// What a packet carries besides filler.
#[derive(Clone, Copy, Debug, PartialEq, Eq)]
pub struct Header {
    /// The index of the packet within its run.
    pub index: u64,
    /// The bit pattern of the timestamp that the sender of these bytes wrote.
    pub timestamp_bits: u64,
}

/// `n` bytes of filler.
pub open spec fn filler(n: nat) -> Seq<u8> {
    Seq::new(n, |i: int| FILLER)
}

/// The bytes of the packet of `size` bytes that carries `header`.
pub open spec fn packet_bytes(header: Header, size: nat) -> Seq<u8>
    recommends
        size >= HEADER_LEN,
{
    be_bytes(header.index) + be_bytes(header.timestamp_bits) + filler((size - 16) as nat)
}

/// What the first sixteen bytes of `bytes` carry; `None` when there are
/// fewer.
pub open spec fn header_of(bytes: Seq<u8>) -> Option<Header> {
    if bytes.len() < 16 {
        None
    } else {
        Some(
            Header {
                index: be_value(bytes.subrange(0, 8)) as u64,
                timestamp_bits: be_value(bytes.subrange(8, 16)) as u64,
            },
        )
    }
}

/// Builds the packet of `size` bytes that carries `header`.
pub fn encode_packet(header: Header, size: usize) -> (out: Vec<u8>)
    requires
        size >= HEADER_LEN,
    ensures
        out@ == packet_bytes(header, size as nat),
        out@.len() == size,
{
    let mut out: Vec<u8> = Vec::with_capacity(size);
    push_word(&mut out, header.index);
    push_word(&mut out, header.timestamp_bits);
    let mut i: usize = HEADER_LEN;
    while i < size
        invariant
            16 <= i <= size,
            out@ == be_bytes(header.index) + be_bytes(header.timestamp_bits) + filler(
                (i - 16) as nat,
            ),
        decreases size - i,
    {
        out.push(FILLER);
        i = i + 1;
    }
    out
}

/// Reads the header of a packet. Fails on fewer than sixteen bytes and on
/// nothing else.
pub fn decode_packet(bytes: &[u8]) -> (r: Option<Header>)
    ensures
        r == header_of(bytes@),
{
    if bytes.len() < HEADER_LEN {
        return None;
    }
    let index = read_word(bytes, 0);
    let timestamp_bits = read_word(bytes, 8);
    Some(Header { index, timestamp_bits })
}

/// Decoding an encoded packet yields the index and the timestamp that went
/// into it, whatever its size.
pub proof fn lemma_decode_encode(header: Header, size: nat)
    requires
        size >= HEADER_LEN,
    ensures
        packet_bytes(header, size).len() == size,
        header_of(packet_bytes(header, size)) == Some(header),
{
    let p = packet_bytes(header, size);
    lemma_be_value_of_bytes(header.index);
    lemma_be_value_of_bytes(header.timestamp_bits);
    assert(p.subrange(0, 8) =~= be_bytes(header.index));
    assert(p.subrange(8, 16) =~= be_bytes(header.timestamp_bits));
}

} // verus!
