//! Spans of time, to the nanosecond.

use vstd::prelude::*;

verus! {

/// The longest span: the largest number of whole seconds that 64 bits hold, and
/// all but one nanosecond of another.
pub const MAX_NANOS: u128 = 18_446_744_073_709_551_615_999_999_999;

/// A span of time.
#[derive(Debug, Clone, Copy, PartialEq, Eq, PartialOrd, Ord, Hash, Structural)]
pub struct Duration {
    pub nanos: u128,
}

/// The sum of two spans, no longer than the longest span.
pub open spec fn capped(nanos: int) -> int {
    if nanos <= MAX_NANOS {
        nanos
    } else {
        MAX_NANOS as int
    }
}

impl Duration {
    /// The empty span.
    pub fn zero() -> (r: Self)
        ensures
            r.nanos == 0,
    {
        Duration { nanos: 0 }
    }

    pub fn from_millis(millis: u64) -> (r: Self)
        ensures
            r.nanos == millis * 1_000_000,
    {
        Duration { nanos: millis as u128 * 1_000_000 }
    }

    /// Whole milliseconds.
    pub fn as_millis(&self) -> (r: u128)
        ensures
            r == self.nanos / 1_000_000,
    {
        self.nanos / 1_000_000
    }

    pub fn saturating_add(self, other: Self) -> (r: Self)
        ensures
            r.nanos == capped(self.nanos + other.nanos),
    {
        if self.nanos >= MAX_NANOS || other.nanos >= MAX_NANOS - self.nanos {
            Duration { nanos: MAX_NANOS }
        } else {
            Duration { nanos: self.nanos + other.nanos }
        }
    }

    pub fn saturating_sub(self, other: Self) -> (r: Self)
        ensures
            r.nanos == if other.nanos <= self.nanos {
                self.nanos - other.nanos
            } else {
                0
            },
    {
        if other.nanos <= self.nanos {
            Duration { nanos: self.nanos - other.nanos }
        } else {
            Duration { nanos: 0 }
        }
    }
}

/// The longest span is the largest number of whole seconds that 64 bits hold and all but one
/// nanosecond of another. A sum is exact up to it, and stays there beyond.
pub proof fn law_sums_stop_at_the_longest_span(a: int, b: int)
    requires
        0 <= a,
        0 <= b,
    ensures
        MAX_NANOS == u64::MAX * 1_000_000_000 + 999_999_999,
        capped(a + b) <= a + b,
        capped(a + b) <= MAX_NANOS,
        capped(a + b) == a + b || capped(a + b) == MAX_NANOS,
        a + b <= MAX_NANOS ==> capped(a + b) == a + b,
        capped(capped(a) + b) == capped(a + b),
{
}

} // verus!
