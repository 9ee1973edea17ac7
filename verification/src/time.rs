//! Durations and instants of the host's monotonic clock, in nanoseconds.

use vstd::prelude::*;

verus! {

pub const NANOS_PER_SEC: u128 = 1_000_000_000;

/// The longest duration that the clock can express: `u64::MAX` seconds and
/// 999,999,999 nanoseconds.
pub const MAX_DURATION_NANOS: u128 = 18_446_744_073_709_551_615_999_999_999;

/// A span of time.
#[derive(Clone, Copy, Debug, PartialEq, Eq, Structural)]
pub struct Duration {
    pub nanos: u128,
}

/// So many seconds.
pub open spec fn seconds(n: int) -> int {
    n * 1_000_000_000
}

/// So many milliseconds.
pub open spec fn milliseconds(n: int) -> int {
    n * 1_000_000
}

/// So many microseconds.
pub open spec fn microseconds(n: int) -> int {
    n * 1_000
}

/// The whole microseconds in a duration.
pub open spec fn whole_microseconds(nanos: int) -> int {
    nanos / 1_000
}

/// What is left of a duration without another.
pub open spec fn remainder(whole: Duration, part: Duration) -> int {
    if whole.nanos >= part.nanos {
        whole.nanos - part.nanos
    } else {
        0
    }
}

impl Duration {
    pub fn zero() -> (r: Duration)
        ensures
            r.nanos == 0,
    {
        Duration { nanos: 0 }
    }

    pub fn from_secs(secs: u64) -> (r: Duration)
        ensures
            r.nanos == secs * 1_000_000_000,
            r.nanos == seconds(secs as int),
    {
        Duration { nanos: secs as u128 * 1_000_000_000 }
    }

    pub fn from_millis(millis: u64) -> (r: Duration)
        ensures
            r.nanos == millis * 1_000_000,
            r.nanos == milliseconds(millis as int),
    {
        Duration { nanos: millis as u128 * 1_000_000 }
    }

    pub fn from_micros(micros: u64) -> (r: Duration)
        ensures
            r.nanos == micros * 1_000,
            r.nanos == microseconds(micros as int),
    {
        Duration { nanos: micros as u128 * 1_000 }
    }

    /// Whole microseconds, rounded down.
    pub fn as_micros(self) -> (r: u128)
        ensures
            r == self.nanos / 1_000,
            r == whole_microseconds(self.nanos as int),
    {
        self.nanos / 1_000
    }

    /// The sum of two durations, which must itself be expressible.
    pub fn plus(self, other: Duration) -> (r: Duration)
        requires
            self.nanos + other.nanos <= MAX_DURATION_NANOS,
        ensures
            r.nanos == self.nanos + other.nanos,
    {
        Duration { nanos: self.nanos + other.nanos }
    }

    /// The difference of two durations, or nothing where it would be negative.
    pub fn saturating_sub(self, other: Duration) -> (r: Duration)
        ensures
            r.nanos == if self.nanos >= other.nanos {
                self.nanos - other.nanos
            } else {
                0
            },
            r.nanos == remainder(self, other),
    {
        if self.nanos >= other.nanos {
            Duration { nanos: self.nanos - other.nanos }
        } else {
            Duration { nanos: 0 }
        }
    }
}

/// A reading of the monotonic clock, counted from an origin that all readings share.
#[derive(Clone, Copy, Debug, PartialEq, Eq, Structural)]
pub struct Instant {
    pub nanos: u128,
}

/// Nanoseconds from `earlier` to `later`, or none where the two are the other way round.
pub open spec fn elapsed_nanos(later: Instant, earlier: Instant) -> int {
    if later.nanos >= earlier.nanos {
        later.nanos - earlier.nanos
    } else {
        0
    }
}

/// The instant that lies `duration` after another, or the last one where there is none.
pub open spec fn later_by(start: Instant, duration: Duration) -> Instant {
    Instant {
        nanos: if start.nanos + duration.nanos <= u128::MAX {
            (start.nanos + duration.nanos) as u128
        } else {
            u128::MAX
        },
    }
}

impl Instant {
    /// Time passed since `earlier`; zero where `earlier` is the later of the two.
    pub fn duration_since(self, earlier: Instant) -> (r: Duration)
        ensures
            r.nanos == elapsed_nanos(self, earlier),
    {
        if self.nanos >= earlier.nanos {
            Duration { nanos: self.nanos - earlier.nanos }
        } else {
            Duration { nanos: 0 }
        }
    }

    /// The instant that lies `duration` later, or the last one where there is none.
    pub fn saturating_after(self, duration: Duration) -> (r: Instant)
        ensures
            r == later_by(self, duration),
    {
        if duration.nanos <= u128::MAX - self.nanos {
            Instant { nanos: self.nanos + duration.nanos }
        } else {
            Instant { nanos: u128::MAX }
        }
    }

    /// The instant that lies `duration` later.
    pub fn after(self, duration: Duration) -> (r: Instant)
        requires
            self.nanos + duration.nanos <= u128::MAX,
        ensures
            r.nanos == self.nanos + duration.nanos,
    {
        Instant { nanos: self.nanos + duration.nanos }
    }
}

/// What lies between two instants, added to the earlier one, gives the later one; it is never
/// negative.
pub proof fn lemma_elapsed_closes_the_gap(earlier: Instant, later: Instant)
    ensures
        earlier.nanos <= later.nanos ==> earlier.nanos + elapsed_nanos(later, earlier)
            == later.nanos,
        later.nanos <= earlier.nanos ==> elapsed_nanos(later, earlier) == 0,
{
}

/// A deadline lies exactly its duration away, unless the clock ends before.
pub proof fn lemma_deadline_is_its_duration_away(start: Instant, duration: Duration)
    ensures
        start.nanos + duration.nanos <= u128::MAX ==> later_by(start, duration).nanos - start.nanos
            == duration.nanos,
        start.nanos + duration.nanos > u128::MAX ==> later_by(start, duration).nanos == u128::MAX,
{
}

/// A second has a thousand milliseconds, a millisecond a thousand microseconds, and a
/// microsecond a thousand nanoseconds. Whole microseconds are read back, whatever is left over.
pub proof fn lemma_units_of_time(n: int, left: int)
    requires
        0 <= left < 1_000,
    ensures
        seconds(n) == milliseconds(1_000 * n),
        milliseconds(n) == microseconds(1_000 * n),
        microseconds(n) == 1_000 * n,
        whole_microseconds(microseconds(n) + left) == n,
{
}

/// What is left of a duration, with what was taken from it, gives the duration; nothing is left
/// of one that is taken whole, or exceeded.
pub proof fn lemma_parts_make_up_the_whole(whole: Duration, part: Duration)
    ensures
        part.nanos <= whole.nanos ==> part.nanos + remainder(whole, part) == whole.nanos,
        whole.nanos <= part.nanos ==> remainder(whole, part) == 0,
{
}

} // verus!
