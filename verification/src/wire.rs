//! Big-endian encoding of 64-bit words, the building block of every packet.

use vstd::prelude::*;

verus! {

/// The byte of `x` that has `below` less significant bytes beneath it.
pub open spec fn byte_of(x: u64, below: nat) -> u8
    recommends
        below < 8,
{
    ((x as nat / word_weight(below)) % 256) as u8
}

/// The weight of the byte that has `below` less significant bytes beneath
/// it: 256 to the power `below`.
pub open spec fn word_weight(below: nat) -> nat {
    if below == 0 {
        1
    } else if below == 1 {
        0x100
    } else if below == 2 {
        0x1_0000
    } else if below == 3 {
        0x100_0000
    } else if below == 4 {
        0x1_0000_0000
    } else if below == 5 {
        0x100_0000_0000
    } else if below == 6 {
        0x1_0000_0000_0000
    } else {
        0x100_0000_0000_0000
    }
}

/// The eight bytes of `x`, most significant first.
pub open spec fn be_bytes(x: u64) -> Seq<u8> {
    seq![
        byte_of(x, 7),
        byte_of(x, 6),
        byte_of(x, 5),
        byte_of(x, 4),
        byte_of(x, 3),
        byte_of(x, 2),
        byte_of(x, 1),
        byte_of(x, 0),
    ]
}

/// The number that eight bytes denote when the first is the most
/// significant.
pub open spec fn be_value(b: Seq<u8>) -> nat
    recommends
        b.len() == 8,
{
    (b[0] as nat) * word_weight(7) + (b[1] as nat) * word_weight(6) + (b[2] as nat) * word_weight(
        5,
    ) + (b[3] as nat) * word_weight(4) + (b[4] as nat) * word_weight(3) + (b[5] as nat)
        * word_weight(2) + (b[6] as nat) * word_weight(1) + (b[7] as nat)
}

/// Eight bytes always denote a number that fits in 64 bits.
pub proof fn lemma_be_value_fits(b: Seq<u8>)
    requires
        b.len() == 8,
    ensures
        be_value(b) <= u64::MAX,
{
    assert(word_weight(7) == 0x100_0000_0000_0000 && word_weight(6) == 0x1_0000_0000_0000
        && word_weight(5) == 0x100_0000_0000 && word_weight(4) == 0x1_0000_0000 && word_weight(3)
        == 0x100_0000 && word_weight(2) == 0x1_0000 && word_weight(1) == 0x100);
}

/// Decoding the encoding of a word gives the word back.
pub proof fn lemma_be_value_of_bytes(x: u64)
    ensures
        be_bytes(x).len() == 8,
        be_value(be_bytes(x)) == x,
{
    let b7: u64 = x / 0x100_0000_0000_0000 % 256;
    let b6: u64 = x / 0x1_0000_0000_0000 % 256;
    let b5: u64 = x / 0x100_0000_0000 % 256;
    let b4: u64 = x / 0x1_0000_0000 % 256;
    let b3: u64 = x / 0x100_0000 % 256;
    let b2: u64 = x / 0x1_0000 % 256;
    let b1: u64 = x / 0x100 % 256;
    let b0: u64 = x % 256;
    assert(x == b7 * 0x100_0000_0000_0000 + b6 * 0x1_0000_0000_0000 + b5 * 0x100_0000_0000 + b4
        * 0x1_0000_0000 + b3 * 0x100_0000 + b2 * 0x1_0000 + b1 * 0x100 + b0) by (bit_vector)
        requires
            b7 == x / 0x100_0000_0000_0000 % 256,
            b6 == x / 0x1_0000_0000_0000 % 256,
            b5 == x / 0x100_0000_0000 % 256,
            b4 == x / 0x1_0000_0000 % 256,
            b3 == x / 0x100_0000 % 256,
            b2 == x / 0x1_0000 % 256,
            b1 == x / 0x100 % 256,
            b0 == x % 256,
    ;
}

/// Encoding the number that eight bytes denote gives the bytes back.
pub proof fn lemma_be_bytes_of_value(b: Seq<u8>)
    requires
        b.len() == 8,
    ensures
        be_value(b) <= u64::MAX,
        be_bytes(be_value(b) as u64) == b,
{
    let b7: u64 = b[0] as u64;
    let b6: u64 = b[1] as u64;
    let b5: u64 = b[2] as u64;
    let b4: u64 = b[3] as u64;
    let b3: u64 = b[4] as u64;
    let b2: u64 = b[5] as u64;
    let b1: u64 = b[6] as u64;
    let b0: u64 = b[7] as u64;
    let x: u64 = be_value(b) as u64;
    assert(x / 0x100_0000_0000_0000 % 256 == b7 && x / 0x1_0000_0000_0000 % 256 == b6 && x
        / 0x100_0000_0000 % 256 == b5 && x / 0x1_0000_0000 % 256 == b4 && x / 0x100_0000 % 256
        == b3 && x / 0x1_0000 % 256 == b2 && x / 0x100 % 256 == b1 && x % 256 == b0)
        by (bit_vector)
        requires
            b7 < 256 && b6 < 256 && b5 < 256 && b4 < 256 && b3 < 256 && b2 < 256 && b1 < 256 && b0
                < 256,
            x == b7 * 0x100_0000_0000_0000 + b6 * 0x1_0000_0000_0000 + b5 * 0x100_0000_0000 + b4
                * 0x1_0000_0000 + b3 * 0x100_0000 + b2 * 0x1_0000 + b1 * 0x100 + b0,
    ;
    assert(be_bytes(x) =~= b);
}

/// Appends the eight bytes of `x`, most significant first, to `out`.
pub fn push_word(out: &mut Vec<u8>, x: u64)
    ensures
        final(out)@ == old(out)@ + be_bytes(x),
{
    let ghost before = out@;
    out.push((x / 0x100_0000_0000_0000 % 256) as u8);
    out.push((x / 0x1_0000_0000_0000 % 256) as u8);
    out.push((x / 0x100_0000_0000 % 256) as u8);
    out.push((x / 0x1_0000_0000 % 256) as u8);
    out.push((x / 0x100_0000 % 256) as u8);
    out.push((x / 0x1_0000 % 256) as u8);
    out.push((x / 0x100 % 256) as u8);
    out.push((x % 256) as u8);
    assert(out@ =~= before + be_bytes(x));
}

/// Reads the word whose eight bytes start at `at`, most significant first.
pub fn read_word(buf: &[u8], at: usize) -> (x: u64)
    requires
        at + 8 <= buf@.len(),
    ensures
        x == be_value(buf@.subrange(at as int, at + 8)),
{
    let ghost b = buf@.subrange(at as int, at + 8);
    let len = buf.len();
    assert(at + 8 <= len);
    let b0: u64 = buf[at] as u64;
    let b1: u64 = buf[at + 1] as u64;
    let b2: u64 = buf[at + 2] as u64;
    let b3: u64 = buf[at + 3] as u64;
    let b4: u64 = buf[at + 4] as u64;
    let b5: u64 = buf[at + 5] as u64;
    let b6: u64 = buf[at + 6] as u64;
    let b7: u64 = buf[at + 7] as u64;
    assert(b[0] == b0 && b[1] == b1 && b[2] == b2 && b[3] == b3 && b[4] == b4 && b[5] == b5 && b[6]
        == b6 && b[7] == b7);
    b0 * 0x100_0000_0000_0000 + b1 * 0x1_0000_0000_0000 + b2 * 0x100_0000_0000 + b3
        * 0x1_0000_0000 + b4 * 0x100_0000 + b5 * 0x1_0000 + b6 * 0x100 + b7
}

} // verus!
