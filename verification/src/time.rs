//! Points in time and spans of time, in whole microseconds.

use vstd::prelude::*;

verus! {

/// A point in time, in microseconds from a fixed but arbitrary origin.
#[derive(Debug, Clone, Copy, PartialEq, Eq, PartialOrd, Ord, Structural)]
pub struct Instant {
    pub micros: i64,
}

/// A span of time.
#[derive(Debug, Clone, Copy, PartialEq, Eq, PartialOrd, Ord, Structural)]
pub struct Duration {
    pub micros: u64,
}

impl Instant {
    /// The point `millis` milliseconds from the origin.
    pub fn from_millis(millis: i64) -> (r: Self)
        requires
            i64::MIN <= millis * 1000 <= i64::MAX,
        ensures
            r.micros == millis * 1000,
    {
        Instant { micros: millis * 1000 }
    }

    /// The time between the two points, whichever comes first.
    pub fn since(self, other: Self) -> (r: Duration)
        requires
            i64::MIN <= self.micros - other.micros <= i64::MAX,
        ensures
            r.micros == if self.micros >= other.micros {
                self.micros - other.micros
            } else {
                other.micros - self.micros
            },
    {
        if self.micros >= other.micros {
            Duration { micros: (self.micros - other.micros) as u64 }
        } else {
            Duration { micros: (other.micros as i128 - self.micros as i128) as u64 }
        }
    }

    /// The point `span` later.
    pub fn plus(self, span: Duration) -> (r: Self)
        requires
            self.micros + span.micros <= i64::MAX,
            span.micros <= i64::MAX,
        ensures
            r.micros == self.micros + span.micros,
    {
        Instant { micros: self.micros + span.micros as i64 }
    }
}

impl Duration {
    /// No time at all.
    pub fn zero() -> (r: Self)
        ensures
            r.micros == 0,
    {
        Duration { micros: 0 }
    }

    /// A span of whole milliseconds.
    pub fn from_millis(millis: u64) -> (r: Self)
        requires
            millis * 1000 <= u64::MAX,
        ensures
            r.micros == millis * 1000,
    {
        Duration { micros: millis * 1000 }
    }

    /// The whole milliseconds in the span.
    pub fn total_millis(self) -> (r: u64)
        ensures
            r == self.micros / 1000,
    {
        self.micros / 1000
    }

    /// The longer of the two spans.
    pub fn max(self, other: Self) -> (r: Self)
        ensures
            r.micros == if self.micros > other.micros {
                self.micros
            } else {
                other.micros
            },
    {
        if self.micros > other.micros {
            self
        } else {
            other
        }
    }
}

} // verus!
