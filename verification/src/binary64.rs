//! The timestamp word of a packet, written from a time and read as one.
//!
//! The word is the bit pattern of an IEEE 754 binary64 number of seconds.
//! A time is written as the number nearest to it, and a word is read as
//! the whole number of nanoseconds nearest to its number; of two that are
//! equally near, the even one is taken. All of it is done on whole numbers.

use crate::timespan::{TimeSpan, MAX_NANOS};
use vstd::arithmetic::div_mod::{lemma_basic_div, lemma_fundamental_div_mod_converse};
use vstd::arithmetic::power2::{
    lemma2_to64,
    lemma_pow2_adds,
    lemma_pow2_pos,
    lemma_pow2_strictly_increases,
    lemma_pow2_unfold,
    pow2,
};
use vstd::prelude::*;

verus! {

/// Whether the sign bit of the word is set.
pub open spec fn sign_bit(bits: u64) -> bool {
    bits >= 0x8000_0000_0000_0000
}

/// The eleven exponent bits of the word.
pub open spec fn exponent_field(bits: u64) -> nat {
    (bits as nat / 0x10_0000_0000_0000) % 0x800
}

/// The fifty-two fraction bits of the word.
pub open spec fn fraction_field(bits: u64) -> nat {
    bits as nat % 0x10_0000_0000_0000
}

/// The whole number that, scaled by two to the power `binary_exponent`,
/// gives the magnitude that the word denotes.
pub open spec fn significand(bits: u64) -> nat {
    if exponent_field(bits) == 0 {
        fraction_field(bits)
    } else {
        0x10_0000_0000_0000 + fraction_field(bits)
    }
}

/// The power of two by which `significand` is scaled.
pub open spec fn binary_exponent(bits: u64) -> int {
    if exponent_field(bits) == 0 {
        -1074
    } else {
        exponent_field(bits) - 1075
    }
}

/// The whole number nearest to `n / d`, the even one of two that are
/// equally near.
pub open spec fn round_half_even(n: nat, d: nat) -> nat
    recommends
        d > 0,
{
    let q = n / d;
    let r = n % d;
    if 2 * r < d || (2 * r == d && q % 2 == 0) {
        q
    } else {
        q + 1
    }
}

/// The nanoseconds nearest to the magnitude, in seconds, that the word
/// denotes. Meaningful for words whose exponent bits are not all set.
pub open spec fn nanos_of_seconds(bits: u64) -> nat {
    let m = significand(bits);
    let e = binary_exponent(bits);
    if e >= 0 {
        m * pow2(e as nat) * 1_000_000_000
    } else {
        round_half_even(m * 1_000_000_000, pow2((-e) as nat))
    }
}

/// Whether the word denotes a time: a number that is finite, is not below
/// zero, and is no longer than the longest span.
pub open spec fn is_time(bits: u64) -> bool {
    &&& exponent_field(bits) != 0x7ff
    &&& (sign_bit(bits) ==> bits == 0x8000_0000_0000_0000)
    &&& nanos_of_seconds(bits) <= MAX_NANOS
}

/// Whether `nanos` nanoseconds are at least two to the power `e` seconds.
pub open spec fn reaches(nanos: nat, e: int) -> bool {
    if e >= 0 {
        nanos >= pow2(e as nat) * 1_000_000_000
    } else {
        nanos * pow2((-e) as nat) >= 1_000_000_000
    }
}

/// The largest power of two, no larger than `e` and no smaller than minus
/// thirty, that `nanos` nanoseconds reach in seconds.
pub open spec fn binade_up_to(nanos: nat, e: int) -> int
    decreases e + 30,
{
    if e <= -30 || reaches(nanos, e) {
        e
    } else {
        binade_up_to(nanos, e - 1)
    }
}

/// The power of two at or just below `nanos` nanoseconds, in seconds. One
/// nanosecond reaches two to the power minus thirty, and no span reaches
/// two to the power sixty-four.
pub open spec fn binade(nanos: nat) -> int {
    binade_up_to(nanos, 63)
}

/// The whole number nearest to `nanos` nanoseconds in units of two to the
/// power `e - 52` seconds.
pub open spec fn significand_at(nanos: nat, e: int) -> nat {
    if e <= 52 {
        round_half_even(nanos * pow2((52 - e) as nat), 1_000_000_000)
    } else {
        round_half_even(nanos, 1_000_000_000 * pow2((e - 52) as nat))
    }
}

/// The timestamp word of the time `nanos`: the bit pattern of the binary64
/// number nearest to that many nanoseconds in seconds, the one with the
/// even significand where two are equally near.
pub open spec fn seconds_bits(nanos: nat) -> u64 {
    if nanos == 0 {
        0
    } else {
        let e = binade(nanos);
        let m = significand_at(nanos, e);
        if m >= 0x20_0000_0000_0000 {
            ((e + 1024) * 0x10_0000_0000_0000) as u64
        } else {
            ((e + 1023) * 0x10_0000_0000_0000 + (m - 0x10_0000_0000_0000)) as u64
        }
    }
}

/// Whether `back` is `nanos` within the precision of the format: no
/// further from it than one part in two to the power fifty-three of
/// `nanos`, and half a nanosecond.
pub open spec fn within_precision(back: nat, nanos: nat) -> bool {
    &&& 0x40_0000_0000_0000 * (back - nanos) <= 2 * nanos + 0x20_0000_0000_0000
    &&& 0x40_0000_0000_0000 * (nanos - back) <= 2 * nanos + 0x20_0000_0000_0000
}

/// The times from which on a timestamp word may read back as no time: two
/// to the power sixty-three seconds, in nanoseconds.
pub open spec fn round_trip_limit() -> nat {
    0x8000_0000_0000_0000 * 1_000_000_000
}

/// Reads the timestamp word `bits` as a time. Fails where the word denotes
/// no time: on infinities and on what is not a number, on numbers below
/// zero, and on numbers of seconds beyond the longest span.
pub fn timestamp_from_bits(bits: u64) -> (r: Option<TimeSpan>)
    ensures
        match r {
            Some(t) => is_time(bits) && t@ == nanos_of_seconds(bits),
            None => !is_time(bits),
        },
{
    let field: u64 = (bits / 0x10_0000_0000_0000) % 0x800;
    let fraction: u64 = bits % 0x10_0000_0000_0000;
    if field == 0x7ff {
        return None;
    }
    if bits > 0x8000_0000_0000_0000 {
        return None;
    }
    proof {
        lemma_powers();
    }
    if field == 0 {
        proof {
            lemma_rounds_to_zero((fraction * 1_000_000_000) as nat, 1074, 85);
        }
        return Some(TimeSpan::zero());
    }
    let m: u128 = 0x10_0000_0000_0000 + fraction as u128;
    if field >= 1087 {
        proof {
            let e = (field - 1075) as nat;
            if e > 12 {
                lemma_pow2_strictly_increases(12, e);
            }
            assert(m * pow2(e) * 1_000_000_000 > MAX_NANOS) by (nonlinear_arith)
                requires
                    m >= 0x10_0000_0000_0000,
                    pow2(e) >= 0x1000,
            ;
        }
        return None;
    }
    if field >= 1075 {
        let shift = (field - 1075) as u32;
        let scale = power_of_two(shift);
        proof {
            if shift < 11 {
                lemma_pow2_strictly_increases(shift as nat, 11);
            }
            assert(m * scale <= 0xffff_ffff_ffff_f800) by (nonlinear_arith)
                requires
                    m <= 0x1f_ffff_ffff_ffff,
                    0 < scale <= 0x800,
            ;
        }
        let secs: u128 = m * scale;
        return TimeSpan::from_nanos(secs * 1_000_000_000);
    }
    let shift = (1075 - field) as u32;
    let n: u128 = m * 1_000_000_000;
    if shift > 84 {
        proof {
            lemma_rounds_to_zero(n as nat, shift as nat, 85);
        }
        return Some(TimeSpan::zero());
    }
    let d = power_of_two(shift);
    proof {
        if shift < 84 {
            lemma_pow2_strictly_increases(shift as nat, 84);
        }
        lemma_pow2_unfold(85);
        assert(n / d <= n) by (nonlinear_arith)
            requires
                d > 0,
                n >= 0,
        ;
    }
    TimeSpan::from_nanos(divide_rounding(n, d))
}

/// Writes the time `t` as a timestamp word: the bit pattern of the
/// binary64 number nearest to its length in seconds. A time so near the
/// longest span that the nearest number is two to the power sixty-four is
/// written as that number, which reads back as no time.
pub fn timestamp_to_bits(t: &TimeSpan) -> (bits: u64)
    ensures
        bits == seconds_bits(t@),
{
    let n = t.as_nanos();
    if n == 0 {
        return 0;
    }
    proof {
        lemma_powers();
    }
    // The power of two at or just below the time.
    let mut e: i32 = 63;
    let mut power: u128 = 0x8000_0000_0000_0000;
    while e > 0 && n < power * 1_000_000_000
        invariant
            0 <= e <= 63,
            power == pow2(e as nat),
            power <= 0x8000_0000_0000_0000,
            binade(n as nat) == binade_up_to(n as nat, e as int),
            e < 63 ==> !reaches(n as nat, e + 1),
            0 < n <= MAX_NANOS,
        decreases e,
    {
        proof {
            lemma_pow2_unfold(e as nat);
        }
        e = e - 1;
        power = power / 2;
    }
    if n < power * 1_000_000_000 {
        e = -1;
        power = 2;
        while e > -30 && falls_short(n, power)
            invariant
                -30 <= e <= -1,
                power == pow2((-e) as nat),
                power <= 0x4000_0000,
                pow2(30) == 0x4000_0000,
                binade(n as nat) == binade_up_to(n as nat, e as int),
                !reaches(n as nat, e + 1),
                0 < n < 1_000_000_000,
            decreases e + 30,
        {
            proof {
                lemma_pow2_unfold((-e + 1) as nat);
                if -e + 1 < 30 {
                    lemma_pow2_strictly_increases((-e + 1) as nat, 30);
                }
            }
            e = e - 1;
            power = power * 2;
        }
    }
    proof {
        if e == -30 {
            assert(n * pow2(30) >= 1_000_000_000) by (nonlinear_arith)
                requires
                    n >= 1,
                    pow2(30) == 0x4000_0000,
            ;
        }
        assert(reaches(n as nat, e as int));
    }
    let significand: u128 = if e <= 52 {
        let scale = power_of_two((52 - e) as u32);
        proof {
            lemma_scaled_range(n as nat, e as int);
            lemma_quotient_between(
                (n * scale) as nat,
                1_000_000_000,
                pow2(52),
                pow2(53),
            );
        }
        divide_rounding(n * scale, 1_000_000_000)
    } else {
        let scale = power_of_two((e - 52) as u32);
        proof {
            if e - 52 < 11 {
                lemma_pow2_strictly_increases((e - 52) as nat, 11);
            }
            lemma_pow2_adds(52, (e - 52) as nat);
            lemma_pow2_adds(53, (e - 52) as nat);
            let d = (1_000_000_000 * scale) as nat;
            assert(pow2(52) * d <= n) by (nonlinear_arith)
                requires
                    n >= pow2(e as nat) * 1_000_000_000,
                    pow2(e as nat) == pow2(52) * scale,
                    d == 1_000_000_000 * scale,
            ;
            if e < 63 {
                assert(n < pow2(53) * d) by (nonlinear_arith)
                    requires
                        n < pow2((e + 1) as nat) * 1_000_000_000,
                        pow2((e + 1) as nat) == pow2(53) * scale,
                        d == 1_000_000_000 * scale,
                ;
            } else {
                assert(n < pow2(53) * d);
            }
            lemma_quotient_between(n as nat, d, pow2(52), pow2(53));
        }
        divide_rounding(n, 1_000_000_000 * scale)
    };
    if significand >= 0x20_0000_0000_0000 {
        ((e + 1024) as u64) * 0x10_0000_0000_0000
    } else {
        ((e + 1023) as u64) * 0x10_0000_0000_0000 + (significand - 0x10_0000_0000_0000) as u64
    }
}

/// Two to the power `k`.
fn power_of_two(k: u32) -> (p: u128)
    requires
        k <= 100,
    ensures
        p == pow2(k as nat),
        p > 0,
{
    let mut p: u128 = 1;
    let mut i: u32 = 0;
    proof {
        lemma_powers();
    }
    while i < k
        invariant
            i <= k <= 100,
            p == pow2(i as nat),
            p <= pow2(100),
            pow2(100) == 0x10_0000_0000_0000_0000_0000_0000,
            p > 0,
        decreases k - i,
    {
        proof {
            lemma_pow2_unfold((i + 1) as nat);
            if i + 1 < 100 {
                lemma_pow2_strictly_increases((i + 1) as nat, 100);
            }
        }
        p = p * 2;
        i = i + 1;
    }
    p
}

/// The whole number nearest to `n / d`, the even one of two that are
/// equally near.
fn divide_rounding(n: u128, d: u128) -> (q: u128)
    requires
        d > 0,
        2 * d <= u128::MAX,
    ensures
        q == round_half_even(n as nat, d as nat),
        q <= n / d + 1,
{
    let q = n / d;
    let r = n % d;
    if 2 * r < d || (2 * r == d && q % 2 == 0) {
        q
    } else {
        assert(q <= n) by (nonlinear_arith)
            requires
                q == n / d,
                d > 0,
        ;
        assert(q < u128::MAX) by {
            if q == u128::MAX {
                assert(n == u128::MAX);
                assert(d == 1) by (nonlinear_arith)
                    requires
                        n / d == n,
                        n > 0,
                        d > 0,
                ;
            }
        }
        q + 1
    }
}

/// Whether `n` nanoseconds, taken `power` times, are less than a second.
fn falls_short(n: u128, power: u128) -> (b: bool)
    requires
        n < 1_000_000_000,
        power <= 0x4000_0000,
    ensures
        b == (n * power < 1_000_000_000),
{
    assert(n * power <= 1_000_000_000 * 0x4000_0000) by (nonlinear_arith)
        requires
            n < 1_000_000_000,
            power <= 0x4000_0000,
    ;
    n * power < 1_000_000_000
}

/// A time written as a timestamp word and read back is the same time
/// within the precision of the format: it moves by no more than one part
/// in two to the power fifty-three, and half a nanosecond. A time below
/// two to the power fifty-two nanoseconds comes back exactly. This holds
/// of every time below two to the power sixty-three seconds.
pub proof fn lemma_timestamp_round_trip(nanos: nat)
    requires
        nanos < round_trip_limit(),
    ensures
        is_time(seconds_bits(nanos)),
        within_precision(nanos_of_seconds(seconds_bits(nanos)), nanos),
        nanos < 0x10_0000_0000_0000 ==> nanos_of_seconds(seconds_bits(nanos)) == nanos,
{
    lemma_powers();
    let bits = seconds_bits(nanos);
    if nanos == 0 {
        lemma_fields(0, 0);
        lemma_rounds_to_zero(0, 1074, 0);
    } else {
        lemma_binade(nanos);
        let e = binade(nanos);
        lemma_significand_range(nanos, e);
        let m = significand_at(nanos, e);
        lemma_nanos_at_error(nanos, e);
        if m >= 0x20_0000_0000_0000 {
            lemma_fields((e + 1024) as nat, 0);
            lemma_carry(e);
            assert(nanos_of_seconds(bits) == nanos_at(0x10_0000_0000_0000, e + 1));
        } else {
            lemma_fields((e + 1023) as nat, (m - 0x10_0000_0000_0000) as nat);
            assert(nanos_of_seconds(bits) == nanos_at(m, e));
        }
    }
}

/// Rounding a quotient moves it by no more than half the divisor.
pub proof fn lemma_round_error(n: nat, d: nat)
    requires
        d > 0,
    ensures
        2 * (round_half_even(n, d) * d - n) <= d,
        2 * (n - round_half_even(n, d) * d) <= d,
{
    let q = n / d;
    let r = n % d;
    vstd::arithmetic::div_mod::lemma_fundamental_div_mod(n as int, d as int);
    vstd::arithmetic::div_mod::lemma_mod_bound(n as int, d as int);
    assert(n == d * q + r);
    assert(d * q == q * d) by (nonlinear_arith);
    assert((q + 1) * d == q * d + d) by (nonlinear_arith);
}

/// Doubling both the dividend and the divisor leaves the rounded quotient
/// as it is.
pub proof fn lemma_round_doubled(n: nat, d: nat)
    requires
        d > 0,
    ensures
        round_half_even(2 * n, 2 * d) == round_half_even(n, d),
{
    let q = n / d;
    let r = n % d;
    vstd::arithmetic::div_mod::lemma_fundamental_div_mod(n as int, d as int);
    vstd::arithmetic::div_mod::lemma_mod_bound(n as int, d as int);
    assert(2 * n == q * (2 * d) + 2 * r) by (nonlinear_arith)
        requires
            n == d * q + r,
    ;
    lemma_fundamental_div_mod_converse((2 * n) as int, (2 * d) as int, q as int, (2 * r) as int);
}

/// The binade of a span is a power that the span reaches, while it does
/// not reach the power above.
pub proof fn lemma_binade(nanos: nat)
    requires
        0 < nanos <= MAX_NANOS,
    ensures
        -30 <= binade(nanos) <= 63,
        reaches(nanos, binade(nanos)),
        !reaches(nanos, binade(nanos) + 1),
{
    lemma_binade_up_to(nanos, 63);
    lemma2_to64();
    let e = binade(nanos);
    if e == -30 {
        assert(nanos * pow2(30) >= 1_000_000_000) by (nonlinear_arith)
            requires
                nanos >= 1,
                pow2(30) == 0x4000_0000,
        ;
    }
    if e == 63 {
        assert(pow2(64) * 1_000_000_000 > MAX_NANOS) by (nonlinear_arith)
            requires
                pow2(64) == 0x1_0000_0000_0000_0000,
        ;
    }
}

/// The nanoseconds nearest to the significand `m` in units of two to the
/// power `e - 52` seconds.
spec fn nanos_at(m: nat, e: int) -> nat {
    if e >= 52 {
        m * pow2((e - 52) as nat) * 1_000_000_000
    } else {
        round_half_even(m * 1_000_000_000, pow2((52 - e) as nat))
    }
}

/// The values of the powers of two that the format is built on.
proof fn lemma_powers()
    ensures
        pow2(0) == 1,
        pow2(1) == 2,
        pow2(11) == 0x800,
        pow2(12) == 0x1000,
        pow2(30) == 0x4000_0000,
        pow2(52) == 0x10_0000_0000_0000,
        pow2(53) == 0x20_0000_0000_0000,
        pow2(63) == 0x8000_0000_0000_0000,
        pow2(64) == 0x1_0000_0000_0000_0000,
        pow2(85) == 0x20_0000_0000_0000_0000_0000,
        pow2(100) == 0x10_0000_0000_0000_0000_0000_0000,
{
    lemma2_to64();
    lemma_pow2_adds(32, 20);
    lemma_pow2_adds(32, 21);
    lemma_pow2_adds(32, 31);
    lemma_pow2_adds(64, 21);
    lemma_pow2_adds(32, 4);
    lemma_pow2_adds(64, 36);
    assert(pow2(52) == 0x10_0000_0000_0000) by (nonlinear_arith)
        requires
            pow2(52) == pow2(32) * pow2(20),
            pow2(32) == 0x1_0000_0000,
            pow2(20) == 0x10_0000,
    ;
    assert(pow2(53) == 0x20_0000_0000_0000) by (nonlinear_arith)
        requires
            pow2(53) == pow2(32) * pow2(21),
            pow2(32) == 0x1_0000_0000,
            pow2(21) == 0x20_0000,
    ;
    assert(pow2(63) == 0x8000_0000_0000_0000) by (nonlinear_arith)
        requires
            pow2(63) == pow2(32) * pow2(31),
            pow2(32) == 0x1_0000_0000,
            pow2(31) == 0x8000_0000,
    ;
    assert(pow2(85) == 0x20_0000_0000_0000_0000_0000) by (nonlinear_arith)
        requires
            pow2(85) == pow2(64) * pow2(21),
            pow2(64) == 0x1_0000_0000_0000_0000,
            pow2(21) == 0x20_0000,
    ;
    assert(pow2(100) == 0x10_0000_0000_0000_0000_0000_0000) by (nonlinear_arith)
        requires
            pow2(100) == pow2(64) * pow2(36),
            pow2(36) == pow2(32) * pow2(4),
            pow2(64) == 0x1_0000_0000_0000_0000,
            pow2(32) == 0x1_0000_0000,
            pow2(4) == 0x10,
    ;
}

/// A quotient whose double numerator stays below the divisor rounds to
/// zero.
proof fn lemma_rounds_to_zero(n: nat, s: nat, floor: nat)
    requires
        floor <= s,
        2 * n < pow2(floor),
    ensures
        round_half_even(n, pow2(s)) == 0,
{
    if floor < s {
        lemma_pow2_strictly_increases(floor, s);
    }
    lemma_pow2_pos(s);
    lemma_basic_div(n as int, pow2(s) as int);
    lemma_fundamental_div_mod_converse(n as int, pow2(s) as int, 0, n as int);
}

/// A span that reaches a power of two reaches the fifty-second power once
/// it is scaled to that binade, and stays below the fifty-third if it does
/// not reach the power above.
proof fn lemma_scaled_range(nanos: nat, e: int)
    requires
        -30 <= e <= 52,
    ensures
        reaches(nanos, e) ==> nanos * pow2((52 - e) as nat) >= pow2(52) * 1_000_000_000,
        !reaches(nanos, e + 1) ==> nanos * pow2((52 - e) as nat) < pow2(53) * 1_000_000_000,
{
    let k = (52 - e) as nat;
    lemma_pow2_pos(k);
    if e >= 0 {
        lemma_pow2_adds(e as nat, k);
        lemma_pow2_adds((e + 1) as nat, k);
        let a = pow2(e as nat);
        let b = pow2((e + 1) as nat);
        let c = pow2(k);
        if reaches(nanos, e) {
            assert(nanos * c >= (a * c) * 1_000_000_000) by (nonlinear_arith)
                requires
                    nanos >= a * 1_000_000_000,
                    c > 0,
            ;
        }
        if !reaches(nanos, e + 1) {
            assert(nanos * c < (b * c) * 1_000_000_000) by (nonlinear_arith)
                requires
                    nanos < b * 1_000_000_000,
                    c > 0,
            ;
        }
    } else {
        lemma_pow2_adds((-e) as nat, 52);
        let a = pow2((-e) as nat);
        let c = pow2(k);
        if reaches(nanos, e) {
            assert(nanos * c >= pow2(52) * 1_000_000_000) by (nonlinear_arith)
                requires
                    nanos * a >= 1_000_000_000,
                    c == a * pow2(52),
            ;
        }
        if e + 1 < 0 {
            lemma_pow2_adds((-e - 1) as nat, 53);
            lemma_pow2_pos(53);
            let b = pow2((-e - 1) as nat);
            if !reaches(nanos, e + 1) {
                assert(nanos * c < pow2(53) * 1_000_000_000) by (nonlinear_arith)
                    requires
                        nanos * b < 1_000_000_000,
                        c == b * pow2(53),
                        pow2(53) > 0,
                ;
            }
        } else {
            lemma2_to64();
            lemma_pow2_pos(53);
            if !reaches(nanos, e + 1) {
                assert(nanos * c < pow2(53) * 1_000_000_000) by (nonlinear_arith)
                    requires
                        nanos < 1_000_000_000,
                        c == pow2(53),
                        pow2(53) > 0,
                ;
            }
        }
    }
}

/// Both ends of the quotient of a division follow from two multiples of
/// the divisor that enclose the dividend.
proof fn lemma_quotient_between(n: nat, d: nat, lo: nat, hi: nat)
    requires
        d > 0,
        lo * d <= n < hi * d,
    ensures
        lo <= n / d < hi,
{
    let q = n / d;
    vstd::arithmetic::div_mod::lemma_fundamental_div_mod(n as int, d as int);
    vstd::arithmetic::div_mod::lemma_mod_bound(n as int, d as int);
    let r = n % d;
    assert(q >= lo) by (nonlinear_arith)
        requires
            n == d * q + r,
            0 <= r < d,
            lo * d <= n,
    ;
    assert(q < hi) by (nonlinear_arith)
        requires
            n == d * q + r,
            0 <= r < d,
            n < hi * d,
    ;
}

proof fn lemma_binade_up_to(nanos: nat, e: int)
    requires
        -30 <= e,
    ensures
        -30 <= binade_up_to(nanos, e) <= e,
        binade_up_to(nanos, e) > -30 ==> reaches(nanos, binade_up_to(nanos, e)),
        binade_up_to(nanos, e) < e ==> !reaches(nanos, binade_up_to(nanos, e) + 1),
    decreases e + 30,
{
    if e > -30 && !reaches(nanos, e) {
        lemma_binade_up_to(nanos, e - 1);
    }
}

/// What the fields of a word are that is put together from an exponent
/// and a fraction.
proof fn lemma_fields(field: nat, fraction: nat)
    requires
        field < 0x800,
        fraction < 0x10_0000_0000_0000,
    ensures
        field * 0x10_0000_0000_0000 + fraction < 0x8000_0000_0000_0000,
        exponent_field((field * 0x10_0000_0000_0000 + fraction) as u64) == field,
        fraction_field((field * 0x10_0000_0000_0000 + fraction) as u64) == fraction,
        !sign_bit((field * 0x10_0000_0000_0000 + fraction) as u64),
{
    let bits = field * 0x10_0000_0000_0000 + fraction;
    lemma_fundamental_div_mod_converse(
        bits as int,
        0x10_0000_0000_0000,
        field as int,
        fraction as int,
    );
}

/// The significand of a span at its binade has fifty-three bits, or is
/// two to the power fifty-three where rounding carried it there.
proof fn lemma_significand_range(nanos: nat, e: int)
    requires
        -30 <= e <= 62,
        reaches(nanos, e),
        !reaches(nanos, e + 1),
    ensures
        0x10_0000_0000_0000 <= significand_at(nanos, e) <= 0x20_0000_0000_0000,
{
    lemma_powers();
    if e <= 52 {
        lemma_scaled_range(nanos, e);
        lemma_quotient_between(
            nanos * pow2((52 - e) as nat),
            1_000_000_000,
            pow2(52),
            pow2(53),
        );
    } else {
        let scale = pow2((e - 52) as nat);
        lemma_pow2_pos((e - 52) as nat);
        lemma_pow2_adds(52, (e - 52) as nat);
        lemma_pow2_adds(53, (e - 52) as nat);
        let d = 1_000_000_000 * scale;
        assert(pow2(52) * d <= nanos) by (nonlinear_arith)
            requires
                nanos >= pow2(e as nat) * 1_000_000_000,
                pow2(e as nat) == pow2(52) * scale,
                d == 1_000_000_000 * scale,
        ;
        assert(nanos < pow2(53) * d) by (nonlinear_arith)
            requires
                nanos < pow2((e + 1) as nat) * 1_000_000_000,
                pow2((e + 1) as nat) == pow2(53) * scale,
                d == 1_000_000_000 * scale,
        ;
        assert(d > 0) by (nonlinear_arith)
            requires
                d == 1_000_000_000 * scale,
                scale > 0,
        ;
        lemma_quotient_between(nanos, d, pow2(52), pow2(53));
    }
}

/// Two to the power fifty-three in one binade is two to the power
/// fifty-two in the binade above.
proof fn lemma_carry(e: int)
    requires
        -30 <= e <= 62,
    ensures
        nanos_at(0x10_0000_0000_0000, e + 1) == nanos_at(0x20_0000_0000_0000, e),
{
    lemma_powers();
    if e >= 52 {
        lemma_pow2_unfold((e - 51) as nat);
        let p = pow2((e - 52) as nat);
        assert(0x10_0000_0000_0000 * (2 * p) * 1_000_000_000 == 0x20_0000_0000_0000 * p
            * 1_000_000_000) by (nonlinear_arith);
    } else if e == 51 {
        lemma_fundamental_div_mod_converse(
            0x20_0000_0000_0000int * 1_000_000_000int,
            2,
            0x10_0000_0000_0000int * 1_000_000_000int,
            0,
        );
    } else {
        lemma_pow2_unfold((52 - e) as nat);
        lemma_pow2_pos((51 - e) as nat);
        lemma_round_doubled(0x10_0000_0000_0000 * 1_000_000_000, pow2((51 - e) as nat));
    }
}

/// Writing a span at its binade and reading it back moves it by no more
/// than one part in two to the power fifty-three, and half a nanosecond.
proof fn lemma_nanos_at_error(nanos: nat, e: int)
    requires
        -30 <= e <= 62,
        reaches(nanos, e),
    ensures
        0x40_0000_0000_0000 * (nanos_at(significand_at(nanos, e), e) - nanos) <= 2 * nanos
            + 0x20_0000_0000_0000,
        0x40_0000_0000_0000 * (nanos - nanos_at(significand_at(nanos, e), e)) <= 2 * nanos
            + 0x20_0000_0000_0000,
{
    lemma_powers();
    let m = significand_at(nanos, e);
    let back = nanos_at(m, e);
    let diff: int = back - nanos;
    if e < 52 {
        let p = pow2((52 - e) as nat);
        lemma_pow2_pos((52 - e) as nat);
        lemma_scaled_range(nanos, e);
        lemma_round_error(nanos * p, 1_000_000_000);
        lemma_round_error(m * 1_000_000_000, p);
        let scaled: int = (nanos * p) as int;
        let far: int = (back * p) as int;
        assert(2 * (far - scaled) <= 1_000_000_000 + p);
        assert(2 * (scaled - far) <= 1_000_000_000 + p);
        assert(far - scaled == diff * p) by (nonlinear_arith)
            requires
                far == back * p,
                scaled == nanos * p,
                diff == back - nanos,
        ;
        assert(0x20_0000_0000_0000 * 1_000_000_000 <= 2 * scaled);
        assert((-diff) * p == scaled - far) by (nonlinear_arith)
            requires
                far - scaled == diff * p,
        ;
        lemma_scaled_bound(diff, p as int, nanos as int);
        lemma_scaled_bound(-diff, p as int, nanos as int);
    } else {
        let p = pow2((e - 52) as nat);
        lemma_pow2_pos((e - 52) as nat);
        lemma_pow2_adds(52, (e - 52) as nat);
        let d = 1_000_000_000 * p;
        assert(d > 0) by (nonlinear_arith)
            requires
                d == 1_000_000_000 * p,
                p > 0,
        ;
        if e == 52 {
            assert(nanos * p == nanos) by (nonlinear_arith)
                requires
                    p == 1,
            ;
            assert(d == 1_000_000_000);
        }
        assert(m == round_half_even(nanos, d));
        lemma_round_error(nanos, d);
        assert(back == m * d) by (nonlinear_arith)
            requires
                back == m * p * 1_000_000_000,
                d == 1_000_000_000 * p,
        ;
        assert(0x10_0000_0000_0000 * d <= nanos) by (nonlinear_arith)
            requires
                nanos >= pow2(e as nat) * 1_000_000_000,
                pow2(e as nat) == 0x10_0000_0000_0000 * p,
                d == 1_000_000_000 * p,
        ;
    }
}

/// If scaling a difference by `p` keeps its double within a second and
/// `p`, and the span scaled by `p` is past two to the power fifty-two
/// seconds, the difference is within one part in two to the power
/// fifty-three of the span, and half a nanosecond.
proof fn lemma_scaled_bound(diff: int, p: int, nanos: int)
    requires
        p > 0,
        nanos >= 0,
        2 * (diff * p) <= 1_000_000_000 + p,
        0x20_0000_0000_0000 * 1_000_000_000 <= 2 * (nanos * p),
    ensures
        0x40_0000_0000_0000 * diff <= 2 * nanos + 0x20_0000_0000_0000,
{
    let bound = 2 * nanos + 0x20_0000_0000_0000;
    if 0x40_0000_0000_0000 * diff > bound {
        assert(0x40_0000_0000_0000 * diff >= bound + 1);
        assert((0x40_0000_0000_0000 * diff) * p >= (bound + 1) * p) by (nonlinear_arith)
            requires
                0x40_0000_0000_0000 * diff >= bound + 1,
                p > 0,
        ;
        assert((0x40_0000_0000_0000 * diff) * p == 0x20_0000_0000_0000 * (2 * (diff * p)))
            by (nonlinear_arith);
        assert((bound + 1) * p == 2 * (nanos * p) + 0x20_0000_0000_0000 * p + p)
            by (nonlinear_arith)
            requires
                bound == 2 * nanos + 0x20_0000_0000_0000,
        ;
        assert(0x20_0000_0000_0000 * (2 * (diff * p)) <= 0x20_0000_0000_0000 * (1_000_000_000
            + p));
        assert(false);
    }
}

} // verus!
