//! Logical time: durations, instants and the mock clock.
//!
//! Time is counted in nanoseconds from the start of the simulation. Nothing in
//! here reads the host's clock.

use vstd::prelude::*;

verus! {

pub const NANOS_PER_MICRO: u64 = 1_000;

pub const NANOS_PER_MILLI: u64 = 1_000_000;

pub const NANOS_PER_SEC: u64 = 1_000_000_000;

/// A span of logical time, in nanoseconds.
#[derive(Clone, Copy, Debug, PartialEq, Eq, PartialOrd, Ord, Hash, Structural)]
pub struct Duration {
    pub nanos: u64,
}

/// A point of logical time, in nanoseconds since the simulation started.
#[derive(Clone, Copy, Debug, PartialEq, Eq, PartialOrd, Ord, Hash, Structural)]
pub struct Instant {
    pub nanos: u64,
}

impl Duration {
    pub fn zero() -> (d: Duration)
        ensures
            d.nanos == 0,
    {
        Duration { nanos: 0 }
    }

    pub fn from_nanos(nanos: u64) -> (d: Duration)
        ensures
            d.nanos == nanos,
    {
        Duration { nanos }
    }

    pub fn from_micros(micros: u32) -> (d: Duration)
        ensures
            d.nanos == micros * NANOS_PER_MICRO,
    {
        let wide: u64 = micros as u64;
        Duration { nanos: wide * NANOS_PER_MICRO }
    }

    pub fn from_millis(millis: u32) -> (d: Duration)
        ensures
            d.nanos == millis * NANOS_PER_MILLI,
    {
        let wide: u64 = millis as u64;
        Duration { nanos: wide * NANOS_PER_MILLI }
    }

    pub fn from_secs(secs: u32) -> (d: Duration)
        ensures
            d.nanos == secs * NANOS_PER_SEC,
    {
        let wide: u64 = secs as u64;
        Duration { nanos: wide * NANOS_PER_SEC }
    }

    pub fn as_nanos(&self) -> (n: u64)
        ensures
            n == self.nanos,
    {
        self.nanos
    }

    /// Whole milliseconds in this span, rounded down.
    pub fn as_millis(&self) -> (n: u64)
        ensures
            n == self.nanos / NANOS_PER_MILLI,
    {
        self.nanos / NANOS_PER_MILLI
    }

    /// Whole seconds in this span, rounded down.
    pub fn as_secs(&self) -> (n: u64)
        ensures
            n == self.nanos / NANOS_PER_SEC,
    {
        self.nanos / NANOS_PER_SEC
    }

    /// The sum of two spans, or `None` where it does not fit.
    pub fn checked_add(self, other: Duration) -> (r: Option<Duration>)
        ensures
            self.nanos + other.nanos <= u64::MAX ==> r == Some(
                Duration { nanos: (self.nanos + other.nanos) as u64 },
            ),
            self.nanos + other.nanos > u64::MAX ==> r.is_none(),
    {
        match self.nanos.checked_add(other.nanos) {
            Some(nanos) => Some(Duration { nanos }),
            None => None,
        }
    }
}

impl Instant {
    /// The instant at which every simulation starts.
    pub fn epoch() -> (t: Instant)
        ensures
            t.nanos == 0,
    {
        Instant { nanos: 0 }
    }

    pub fn from_nanos(nanos: u64) -> (t: Instant)
        ensures
            t.nanos == nanos,
    {
        Instant { nanos }
    }

    pub fn as_nanos(&self) -> (n: u64)
        ensures
            n == self.nanos,
    {
        self.nanos
    }

    /// Whether `self + d` is still a representable instant.
    pub open spec fn can_add(self, d: Duration) -> bool {
        self.nanos + d.nanos <= u64::MAX
    }

    /// `self + d` as an instant; meaningful where `can_add` holds.
    pub open spec fn spec_plus(self, d: Duration) -> Instant {
        Instant { nanos: (self.nanos + d.nanos) as u64 }
    }

    /// This instant moved `d` into the future, or `None` where that is past the
    /// last representable instant.
    pub fn checked_add(self, d: Duration) -> (r: Option<Instant>)
        ensures
            self.can_add(d) ==> r == Some(self.spec_plus(d)),
            !self.can_add(d) ==> r.is_none(),
    {
        match self.nanos.checked_add(d.nanos) {
            Some(nanos) => Some(Instant { nanos }),
            None => None,
        }
    }

    /// This instant moved `d` into the future.
    pub fn plus(self, d: Duration) -> (t: Instant)
        requires
            self.can_add(d),
        ensures
            t == self.spec_plus(d),
    {
        Instant { nanos: self.nanos + d.nanos }
    }

    /// The time that passed from `earlier` to `self`; zero where `earlier` is
    /// in fact later.
    pub fn saturating_duration_since(self, earlier: Instant) -> (d: Duration)
        ensures
            self.nanos >= earlier.nanos ==> d.nanos == self.nanos - earlier.nanos,
            self.nanos < earlier.nanos ==> d.nanos == 0,
    {
        if self.nanos >= earlier.nanos {
            Duration { nanos: self.nanos - earlier.nanos }
        } else {
            Duration { nanos: 0 }
        }
    }

    pub fn is_at_or_after(self, other: Instant) -> (b: bool)
        ensures
            b == (self.nanos >= other.nanos),
    {
        self.nanos >= other.nanos
    }
}

/// The simulation's clock. It moves only when told to, and never backwards.
#[derive(Debug)]
pub struct MockClock {
    pub current: Instant,
}

impl MockClock {
    /// A clock standing at the epoch.
    pub fn new() -> (c: MockClock)
        ensures
            c.current.nanos == 0,
    {
        MockClock { current: Instant { nanos: 0 } }
    }

    pub fn now(&self) -> (t: Instant)
        ensures
            t == self.current,
    {
        self.current
    }

    /// What `advance_to(target)` leaves on a clock that stood at `current`.
    pub open spec fn advanced(current: Instant, target: Instant) -> Instant {
        if target.nanos > current.nanos {
            target
        } else {
            current
        }
    }

    /// Moves the clock to `target` if that lies in the future; otherwise does
    /// nothing. Returns whether the clock moved.
    pub fn advance_to(&mut self, target: Instant) -> (moved: bool)
        ensures
            final(self).current == Self::advanced(old(self).current, target),
            moved == (target.nanos > old(self).current.nanos),
            final(self).current.nanos >= old(self).current.nanos,
    {
        if target.nanos > self.current.nanos {
            self.current = target;
            true
        } else {
            false
        }
    }
}

} // verus!
