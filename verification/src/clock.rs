//! Points in time and spans of time as plain nanosecond counts.
//!
//! The library never reads a clock. Callers hand in every [`Instant`], counted
//! from whatever origin they chose, and all of them from the same one.
use vstd::prelude::*;

verus! {

pub const NANOS_PER_MILLI: u128 = 1_000_000;

pub const NANOS_PER_SEC: u128 = 1_000_000_000;

/// The longest span: `u64::MAX` seconds and 999 999 999 nanoseconds.
pub const MAX_DURATION_NANOS: u128 = 18_446_744_073_709_551_615_999_999_999;

/// A span of time.
#[derive(Clone, Copy, Debug, PartialEq, Eq, Structural)]
pub struct Duration {
    pub nanos: u128,
}

/// A point in time, counted from the caller's origin.
#[derive(Clone, Copy, Debug, PartialEq, Eq, Structural)]
pub struct Instant {
    pub nanos: u128,
}

/// The span of `ms` milliseconds.
pub open spec fn millis(ms: int) -> int {
    ms * NANOS_PER_MILLI
}

/// The span of `secs` seconds.
pub open spec fn seconds(secs: int) -> int {
    secs * NANOS_PER_SEC
}

impl Duration {
    pub fn zero() -> (span: Duration)
        ensures
            span.nanos == 0,
    {
        Duration { nanos: 0 }
    }

    pub fn from_millis(ms: u64) -> (span: Duration)
        ensures
            span.nanos == millis(ms as int),
            span.nanos <= MAX_DURATION_NANOS,
    {
        Duration { nanos: ms as u128 * NANOS_PER_MILLI }
    }

    pub fn from_secs(secs: u64) -> (span: Duration)
        ensures
            span.nanos == seconds(secs as int),
            span.nanos <= MAX_DURATION_NANOS,
    {
        Duration { nanos: secs as u128 * NANOS_PER_SEC }
    }

    /// Whole seconds of the span, the fraction dropped.
    pub fn as_secs(self) -> (secs: u64)
        requires
            self.nanos <= MAX_DURATION_NANOS,
        ensures
            seconds(secs as int) <= self.nanos < seconds(secs + 1),
    {
        (self.nanos / NANOS_PER_SEC) as u64
    }

    pub fn is_zero(self) -> (zero: bool)
        ensures
            zero == (self.nanos == 0),
    {
        self.nanos == 0
    }

    /// The shorter of the two spans.
    pub fn min(self, other: Duration) -> (span: Duration)
        ensures
            span == if self.nanos <= other.nanos { self } else { other },
    {
        if self.nanos <= other.nanos {
            self
        } else {
            other
        }
    }

    /// The two spans end to end, held at the longest span there is.
    pub fn saturating_add(self, other: Duration) -> (span: Duration)
        ensures
            span.nanos == if self.nanos + other.nanos <= MAX_DURATION_NANOS {
                self.nanos + other.nanos
            } else {
                MAX_DURATION_NANOS as int
            },
    {
        let sum: u128 = self.nanos.saturating_add(other.nanos);
        if sum <= MAX_DURATION_NANOS {
            Duration { nanos: sum }
        } else {
            Duration { nanos: MAX_DURATION_NANOS }
        }
    }
}

impl Instant {
    /// Whether the point `span` nanoseconds after this one can be counted.
    pub open spec fn reaches(self, span: int) -> bool {
        self.nanos + span <= u128::MAX
    }

    pub fn plus(self, span: Duration) -> (later: Instant)
        requires
            self.reaches(span.nanos as int),
        ensures
            later.nanos == self.nanos + span.nanos,
    {
        Instant { nanos: self.nanos + span.nanos }
    }

    /// The later of the two points.
    pub fn max(self, other: Instant) -> (point: Instant)
        ensures
            point == if self.nanos >= other.nanos { self } else { other },
    {
        if self.nanos >= other.nanos {
            self
        } else {
            other
        }
    }

    /// How long after `earlier` this point lies, zero if it lies before.
    pub fn saturating_duration_since(self, earlier: Instant) -> (span: Duration)
        ensures
            span == elapsed(earlier, self),
    {
        Duration { nanos: self.nanos.saturating_sub(earlier.nanos) }
    }
}

/// The span from `earlier` to `later`, empty when they are out of order.
pub open spec fn elapsed(earlier: Instant, later: Instant) -> Duration {
    if earlier.nanos <= later.nanos {
        Duration { nanos: (later.nanos - earlier.nanos) as u128 }
    } else {
        Duration { nanos: 0 }
    }
}

} // verus!
