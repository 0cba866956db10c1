//! Non-negative spans of time with nanosecond resolution.

use vstd::prelude::*;

verus! {

/// Nanoseconds in one second.
pub const NANOS_PER_SEC: u128 = 1_000_000_000;

/// The longest representable span, in nanoseconds: `u64::MAX` whole seconds
/// and 999 999 999 nanoseconds.
pub const MAX_NANOS: u128 = 18_446_744_073_709_551_615_999_999_999;

/// A span of time, or a point in time counted from some epoch.
///
/// The view of a span is its length in nanoseconds, which never exceeds
/// `MAX_NANOS`.
#[derive(Clone, Copy, Debug, PartialEq, Eq)]
pub struct TimeSpan {
    nanos: u128,
}

impl View for TimeSpan {
    type V = nat;

    closed spec fn view(&self) -> nat {
        self.nanos as nat
    }
}

impl TimeSpan {
    #[verifier::type_invariant]
    spec fn in_range(self) -> bool {
        self.nanos <= MAX_NANOS
    }

    /// The span that is `nanos` nanoseconds long.
    pub closed spec fn of_nanos(nanos: nat) -> TimeSpan {
        TimeSpan { nanos: nanos as u128 }
    }

    /// `of_nanos` and the view undo each other.
    pub proof fn lemma_of_nanos(nanos: nat, t: TimeSpan)
        ensures
            nanos <= u128::MAX ==> TimeSpan::of_nanos(nanos)@ == nanos,
            TimeSpan::of_nanos(t@) == t,
    {
    }

    /// The empty span.
    pub fn zero() -> (t: TimeSpan)
        ensures
            t@ == 0,
    {
        TimeSpan { nanos: 0 }
    }

    /// The span of `secs` whole seconds and `nanos` further nanoseconds, or
    /// `None` when that is longer than `MAX_NANOS`.
    pub fn new(secs: u64, nanos: u32) -> (r: Option<TimeSpan>)
        ensures
            match r {
                Some(t) => t@ == secs * 1_000_000_000 + nanos,
                None => secs * 1_000_000_000 + nanos > MAX_NANOS,
            },
    {
        let total: u128 = (secs as u128) * 1_000_000_000 + (nanos as u128);
        if total <= MAX_NANOS {
            Some(TimeSpan { nanos: total })
        } else {
            None
        }
    }

    /// The span of `nanos` nanoseconds, or `None` when that is longer than
    /// `MAX_NANOS`.
    pub fn from_nanos(nanos: u128) -> (r: Option<TimeSpan>)
        ensures
            match r {
                Some(t) => t@ == nanos,
                None => nanos > MAX_NANOS,
            },
    {
        if nanos <= MAX_NANOS {
            Some(TimeSpan { nanos })
        } else {
            None
        }
    }

    /// The span of `secs` whole seconds.
    pub fn from_secs(secs: u64) -> (t: TimeSpan)
        ensures
            t@ == secs * 1_000_000_000,
    {
        TimeSpan { nanos: (secs as u128) * 1_000_000_000 }
    }

    /// The span of `millis` milliseconds.
    pub fn from_millis(millis: u64) -> (t: TimeSpan)
        ensures
            t@ == millis * 1_000_000,
    {
        TimeSpan { nanos: (millis as u128) * 1_000_000 }
    }

    /// The length of the span in nanoseconds.
    pub fn as_nanos(&self) -> (n: u128)
        ensures
            n == self@,
            n <= MAX_NANOS,
    {
        proof {
            use_type_invariant(self);
        }
        self.nanos
    }

    /// The whole seconds in the span.
    pub fn as_secs(&self) -> (s: u64)
        ensures
            s == self@ / 1_000_000_000,
    {
        proof {
            use_type_invariant(self);
        }
        (self.nanos / 1_000_000_000) as u64
    }

    /// The nanoseconds of the span beyond its whole seconds.
    pub fn subsec_nanos(&self) -> (n: u32)
        ensures
            n == self@ % 1_000_000_000,
            n < 1_000_000_000,
    {
        (self.nanos % 1_000_000_000) as u32
    }

    /// Whether this span is strictly shorter than `other`.
    pub fn is_less_than(&self, other: &TimeSpan) -> (b: bool)
        ensures
            b == (self@ < other@),
    {
        self.nanos < other.nanos
    }

    /// `self - other`, or `None` when `other` is the longer span.
    pub fn checked_sub(&self, other: &TimeSpan) -> (r: Option<TimeSpan>)
        ensures
            match r {
                Some(t) => self@ >= other@ && t@ == self@ - other@,
                None => self@ < other@,
            },
    {
        proof {
            use_type_invariant(self);
        }
        if self.nanos >= other.nanos {
            Some(TimeSpan { nanos: self.nanos - other.nanos })
        } else {
            None
        }
    }

    /// `self + other`, or `None` when the sum is longer than `MAX_NANOS`.
    pub fn checked_add(&self, other: &TimeSpan) -> (r: Option<TimeSpan>)
        ensures
            match r {
                Some(t) => t@ == self@ + other@,
                None => self@ + other@ > MAX_NANOS,
            },
    {
        proof {
            use_type_invariant(self);
            use_type_invariant(other);
        }
        let total: u128 = self.nanos + other.nanos;
        if total <= MAX_NANOS {
            Some(TimeSpan { nanos: total })
        } else {
            None
        }
    }
}

/// Two spans are the same value exactly when they have the same length.
pub proof fn lemma_timespan_eq(a: TimeSpan, b: TimeSpan)
    ensures
        (a == b) <==> (a@ == b@),
{
}

} // verus!
