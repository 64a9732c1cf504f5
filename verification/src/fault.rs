//! Fault injection: delays drawn from the seeded random source.
//!
//! Every place that consults the injector is part of what a seed means:
//! adding or removing one changes what every seed replays. The only such
//! place is the start of each `accept`.

use vstd::prelude::*;
use crate::rng::{Probability, SeededRng, bernoulli, draw, next_state, uniform};
use crate::time::{Duration, Instant};

verus! {

/// How often and for how long an `accept` is delayed. Fixed when the runtime
/// is built.
#[derive(Clone, Copy, Debug, PartialEq, Eq, Structural)]
pub struct FaultConfig {
    /// The chance that a newly started `accept` is delayed.
    pub accept_delay_probability: Probability,
    /// The shortest such delay.
    pub accept_delay_min: Duration,
    /// The bound that every such delay stays under.
    pub accept_delay_max: Duration,
}

/// The longest delay that bounds `min` and `max` can give.
pub open spec fn longest_delay(min: Duration, max: Duration) -> Duration {
    if min.nanos < max.nanos {
        max
    } else {
        min
    }
}

/// Whether a generator in state `state` injects a delay at probability `p`.
pub open spec fn injects(state: u64, p: Probability) -> bool {
    bernoulli(draw(state), p)
}

/// The delay that a generator in state `state` injects: none where the coin
/// says no, else the duration that the next word selects in `[min, max)`.
pub open spec fn injected_delay(state: u64, p: Probability, min: Duration, max: Duration) -> Option<
    Duration,
> {
    if injects(state, p) {
        Some(Duration { nanos: uniform(draw(next_state(state)), min.nanos, max.nanos) })
    } else {
        None
    }
}

/// The generator's state after the injector was consulted: one word is used
/// for the coin, and one more for the duration where the coin said yes.
pub open spec fn rng_after_injection(state: u64, p: Probability) -> u64 {
    if injects(state, p) {
        next_state(next_state(state))
    } else {
        next_state(state)
    }
}

/// The deadline of the delay injected at `now`, if one is injected.
pub open spec fn injected_deadline(
    state: u64,
    now: Instant,
    p: Probability,
    min: Duration,
    max: Duration,
) -> Option<Instant> {
    match injected_delay(state, p, min, max) {
        Some(d) => Some(now.spec_plus(d)),
        None => None,
    }
}

/// An injected delay is never longer than `longest_delay`, and never shorter
/// than `min`.
pub proof fn lemma_injected_delay_bounds(state: u64, p: Probability, min: Duration, max: Duration)
    ensures
        injected_delay(state, p, min, max) matches Some(d) ==> min.nanos <= d.nanos
            <= longest_delay(min, max).nanos,
        injected_delay(state, p, min, max) matches Some(d) ==> (min.nanos < max.nanos ==> d.nanos
            < max.nanos),
        p.ppm == 0 ==> injected_delay(state, p, min, max).is_none(),
{
}

/// The faults of a runtime that was given none: one `accept` in ten is
/// delayed, by 100 ms to 10 s.
pub open spec fn standard_faults() -> FaultConfig {
    FaultConfig {
        accept_delay_probability: Probability { ppm: 100_000 },
        accept_delay_min: Duration { nanos: 100_000_000 },
        accept_delay_max: Duration { nanos: 10_000_000_000 },
    }
}

/// No `accept` is ever delayed.
pub open spec fn no_faults() -> FaultConfig {
    FaultConfig {
        accept_delay_probability: Probability { ppm: 0 },
        accept_delay_min: Duration { nanos: 0 },
        accept_delay_max: Duration { nanos: 0 },
    }
}

impl FaultConfig {
    /// One `accept` in ten is delayed, by 100 ms to 10 s.
    pub fn standard() -> (c: FaultConfig)
        ensures
            c == standard_faults(),
    {
        FaultConfig {
            accept_delay_probability: Probability::from_percent(10),
            accept_delay_min: Duration::from_millis(100),
            accept_delay_max: Duration::from_millis(10_000),
        }
    }

    /// No `accept` is ever delayed.
    pub fn none() -> (c: FaultConfig)
        ensures
            c == no_faults(),
    {
        FaultConfig {
            accept_delay_probability: Probability::never(),
            accept_delay_min: Duration::zero(),
            accept_delay_max: Duration::zero(),
        }
    }

    /// The longest delay that this configuration can give.
    pub open spec fn longest(self) -> Duration {
        longest_delay(self.accept_delay_min, self.accept_delay_max)
    }
}

/// Consults the injector: flips a coin with probability `p`, and where it
/// says yes draws a delay from `[min, max)` and returns the instant at which
/// that delay is over, counted from `now`.
pub fn maybe_random_delay(
    rng: &mut SeededRng,
    now: Instant,
    p: Probability,
    min: Duration,
    max: Duration,
) -> (deadline: Option<Instant>)
    requires
        now.can_add(longest_delay(min, max)),
    ensures
        deadline == injected_deadline(old(rng).state, now, p, min, max),
        final(rng).state == rng_after_injection(old(rng).state, p),
        deadline matches Some(t) ==> now.nanos + min.nanos <= t.nanos <= now.nanos + longest_delay(
            min,
            max,
        ).nanos,
{
    if rng.next_bool(p) {
        let d = rng.next_duration(min, max);
        Some(now.plus(d))
    } else {
        None
    }
}

} // verus!
