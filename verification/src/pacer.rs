//! Fixed-rate pacing: how many packets a run sends, and when the next one
//! is due.

use crate::timespan::TimeSpan;
use vstd::prelude::*;

verus! {

/// The packets that a run of `duration_nanos` nanoseconds sends at
/// `packets_per_second`: duration times rate, rounded down.
pub open spec fn expected_packets(duration_nanos: nat, packets_per_second: nat) -> nat {
    duration_nanos * packets_per_second / 1_000_000_000
}

/// Whether `elapsed_nanos` nanoseconds cover the interval between two
/// packets at `packets_per_second`, which is one second divided by the
/// rate. At rate zero no time covers it.
pub open spec fn interval_covered(elapsed_nanos: nat, packets_per_second: nat) -> bool {
    elapsed_nanos * packets_per_second >= 1_000_000_000
}

/// The shortest whole number of nanoseconds that covers the interval
/// between two packets at `packets_per_second`; none at rate zero.
pub open spec fn interval_nanos(packets_per_second: nat) -> Option<nat> {
    if packets_per_second == 0 {
        None
    } else {
        Some(((1_000_000_000 + packets_per_second - 1) / (packets_per_second as int)) as nat)
    }
}

/// The number of packets to send in `test_duration` at
/// `packets_per_second`, or `None` when it is beyond 64 bits.
pub fn expected_packet_count(test_duration: &TimeSpan, packets_per_second: u32) -> (r: Option<u64>)
    ensures
        match r {
            Some(n) => n == expected_packets(test_duration@, packets_per_second as nat),
            None => expected_packets(test_duration@, packets_per_second as nat) > u64::MAX,
        },
{
    let nanos = test_duration.as_nanos();
    assert(nanos * packets_per_second <= 0x7fff_ffff_ffff_ffff_ffff_ffff_ffff_ffff)
        by (nonlinear_arith)
        requires
            nanos <= 18_446_744_073_709_551_615_999_999_999,
            packets_per_second <= 0xffff_ffff,
    ;
    let count: u128 = nanos * (packets_per_second as u128) / 1_000_000_000;
    if count <= u64::MAX as u128 {
        Some(count as u64)
    } else {
        None
    }
}

/// Whether the next packet is due, `elapsed` after the previous one.
pub fn interval_elapsed(elapsed: &TimeSpan, packets_per_second: u32) -> (due: bool)
    ensures
        due == interval_covered(elapsed@, packets_per_second as nat),
{
    let nanos = elapsed.as_nanos();
    assert(nanos * packets_per_second <= 0x7fff_ffff_ffff_ffff_ffff_ffff_ffff_ffff)
        by (nonlinear_arith)
        requires
            nanos <= 18_446_744_073_709_551_615_999_999_999,
            packets_per_second <= 0xffff_ffff,
    ;
    nanos * (packets_per_second as u128) >= 1_000_000_000
}

/// The interval between two packets at `packets_per_second`, rounded up to
/// a whole nanosecond; `None` at rate zero, where no packet is ever due.
pub fn message_interval(packets_per_second: u32) -> (r: Option<TimeSpan>)
    ensures
        match r {
            Some(t) => interval_nanos(packets_per_second as nat) == Some(t@),
            None => packets_per_second == 0,
        },
{
    if packets_per_second == 0 {
        return None;
    }
    let rate = packets_per_second as u128;
    let nanos: u128 = (1_000_000_000 + rate - 1) / rate;
    assert(nanos <= 1_000_000_000 + rate - 1) by (nonlinear_arith)
        requires
            nanos == (1_000_000_000 + rate - 1) / (rate as int),
            rate > 0,
    ;
    TimeSpan::from_nanos(nanos)
}

/// A packet is due exactly when the time since the previous one has
/// reached the interval.
pub proof fn lemma_due_at_interval(elapsed_nanos: nat, packets_per_second: nat)
    requires
        packets_per_second > 0,
    ensures
        interval_covered(elapsed_nanos, packets_per_second) <==> elapsed_nanos >= interval_nanos(
            packets_per_second,
        ).unwrap(),
{
    let r = packets_per_second as int;
    let t = (1_000_000_000 + r - 1) / r;
    vstd::arithmetic::div_mod::lemma_fundamental_div_mod(1_000_000_000 + r - 1, r);
    vstd::arithmetic::div_mod::lemma_mod_bound(1_000_000_000 + r - 1, r);
    let rem = (1_000_000_000 + r - 1) % r;
    assert(1_000_000_000 + r - 1 == r * t + rem);
    if elapsed_nanos >= t {
        assert(elapsed_nanos * r >= 1_000_000_000) by (nonlinear_arith)
            requires
                elapsed_nanos >= t,
                r * t + rem == 1_000_000_000 + r - 1,
                0 <= rem < r,
                r > 0,
        ;
    } else {
        assert(elapsed_nanos * r < 1_000_000_000) by (nonlinear_arith)
            requires
                elapsed_nanos <= t - 1,
                r * t + rem == 1_000_000_000 + r - 1,
                0 <= rem < r,
                r > 0,
                elapsed_nanos >= 0,
        ;
    }
}

/// A run of whole seconds sends the rate times the seconds.
pub proof fn lemma_whole_seconds(secs: nat, packets_per_second: nat)
    ensures
        expected_packets(secs * 1_000_000_000, packets_per_second) == secs * packets_per_second,
{
    assert(secs * 1_000_000_000 * packets_per_second == (secs * packets_per_second)
        * 1_000_000_000) by (nonlinear_arith);
    vstd::arithmetic::div_mod::lemma_div_by_multiple(
        (secs * packets_per_second) as int,
        1_000_000_000,
    );
}

} // verus!
