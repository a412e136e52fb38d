//! A span of time in nanoseconds, with the range of `std::time::Duration`.

use vstd::prelude::*;

verus! {

/// Nanoseconds in one millisecond.
pub const NANOS_PER_MILLI: u128 = 1_000_000;

/// Nanoseconds in one second.
pub const NANOS_PER_SEC: u128 = 1_000_000_000;

/// The largest nanosecond count a `Duration` holds: that of `u64::MAX` seconds
/// plus 999_999_999 ns, the range of `std::time::Duration`.
pub const MAX_NANOS: u128 = 18_446_744_073_709_551_615_999_999_999;

/// A non-negative span of time, counted in nanoseconds.
#[derive(Clone, Copy, Debug, PartialEq, Eq, Structural)]
pub struct Duration {
    nanos: u128,
}

impl View for Duration {
    type V = nat;

    /// The span in nanoseconds.
    closed spec fn view(&self) -> nat {
        self.nanos as nat
    }
}

/// The whole milliseconds in a span of `nanos` nanoseconds.
pub open spec fn whole_millis(nanos: nat) -> nat {
    nanos / (NANOS_PER_MILLI as nat)
}

impl Duration {
    #[verifier::type_invariant]
    spec fn in_range(self) -> bool {
        self.nanos <= MAX_NANOS
    }

    /// The empty span, as a function.
    pub fn zero() -> (d: Duration)
        ensures
            d@ == 0,
    {
        Duration { nanos: 0 }
    }

    /// `secs` whole seconds.
    pub fn from_secs(secs: u64) -> (d: Duration)
        ensures
            d@ == secs * NANOS_PER_SEC,
    {
        Duration { nanos: secs as u128 * NANOS_PER_SEC }
    }

    /// `millis` milliseconds.
    pub fn from_millis(millis: u64) -> (d: Duration)
        ensures
            d@ == millis * NANOS_PER_MILLI,
    {
        Duration { nanos: millis as u128 * NANOS_PER_MILLI }
    }

    /// `nanos` nanoseconds.
    pub fn from_nanos(nanos: u64) -> (d: Duration)
        ensures
            d@ == nanos,
    {
        Duration { nanos: nanos as u128 }
    }

    /// `nanos` nanoseconds, for a count within the range of a `Duration`.
    pub fn from_total_nanos(nanos: u128) -> (d: Duration)
        requires
            nanos <= MAX_NANOS,
        ensures
            d@ == nanos,
    {
        Duration { nanos }
    }

    /// Total whole milliseconds.
    pub fn as_millis(&self) -> (ms: u128)
        ensures
            ms == whole_millis(self@),
    {
        self.nanos / NANOS_PER_MILLI
    }

    /// Total nanoseconds.
    pub fn as_nanos(&self) -> (ns: u128)
        ensures
            ns == self@,
    {
        self.nanos
    }

    /// Total whole seconds (the part beyond the last full second is dropped).
    pub fn as_secs(&self) -> (s: u64)
        ensures
            s == self@ / (NANOS_PER_SEC as nat),
    {
        proof {
            use_type_invariant(self);
        }
        (self.nanos / NANOS_PER_SEC) as u64
    }

    /// True for the empty span.
    pub fn is_zero(&self) -> (b: bool)
        ensures
            b == (self@ == 0),
    {
        self.nanos == 0
    }

    /// `self - other`, or zero when `other` is the longer span.
    pub fn saturating_sub(&self, other: Duration) -> (d: Duration)
        ensures
            d@ == (if self@ >= other@ { self@ - other@ } else { 0 }),
    {
        proof {
            use_type_invariant(self);
        }
        if self.nanos >= other.nanos {
            Duration { nanos: self.nanos - other.nanos }
        } else {
            Duration { nanos: 0 }
        }
    }

    /// The shorter of the two spans.
    pub fn shorter(&self, other: Duration) -> (d: Duration)
        ensures
            d@ == (if self@ <= other@ { self@ } else { other@ }),
    {
        if self.nanos <= other.nanos {
            *self
        } else {
            other
        }
    }

    /// `self + other`, or `None` when the sum leaves the range of a `Duration`.
    pub fn checked_add(&self, other: Duration) -> (d: Option<Duration>)
        ensures
            d matches Some(s) ==> s@ == self@ + other@,
            d is None <==> self@ + other@ > MAX_NANOS,
    {
        proof {
            use_type_invariant(self);
            use_type_invariant(&other);
        }
        if self.nanos <= MAX_NANOS - other.nanos {
            Some(Duration { nanos: self.nanos + other.nanos })
        } else {
            None
        }
    }
}

} // verus!
