//! The seedable random source behind every injected fault.
//!
//! The generator is SplitMix64 (Steele, Lea and Flood, "Fast splittable
//! pseudorandom number generators", 2014): the state is one 64-bit word, every
//! seed is valid, and the sequence of draws is a function of the seed alone.
//! The algorithm is part of the crate's compatibility promise: changing it
//! would change what every seed replays.

use vstd::prelude::*;
use crate::time::Duration;

verus! {

/// The increment that SplitMix64 adds to its state before every draw.
pub const GOLDEN_GAMMA: u64 = 0x9E37_79B9_7F4A_7C15;

pub const MIX_MULTIPLIER_1: u64 = 0xBF58_476D_1CE4_E5B9;

pub const MIX_MULTIPLIER_2: u64 = 0x94D0_49BB_1331_11EB;

/// The denominator of a [`Probability`].
pub const PPM: u32 = 1_000_000;

/// The state that follows `state`.
pub open spec fn next_state(state: u64) -> u64 {
    state.wrapping_add(GOLDEN_GAMMA)
}

/// SplitMix64's output function.
pub open spec fn mix(z: u64) -> u64 {
    let a = (z ^ (z >> 30)).wrapping_mul(MIX_MULTIPLIER_1);
    let b = (a ^ (a >> 27)).wrapping_mul(MIX_MULTIPLIER_2);
    b ^ (b >> 31)
}

/// The word drawn from a generator whose state is `state`.
pub open spec fn draw(state: u64) -> u64 {
    mix(next_state(state))
}

/// The outcome of a coin flip that consumed the word `word`.
pub open spec fn bernoulli(word: u64, p: Probability) -> bool {
    word % (PPM as u64) < p.ppm as u64
}

/// The point of `[lo, hi)` that the word `word` selects; `lo` where the range
/// is empty.
pub open spec fn uniform(word: u64, lo: u64, hi: u64) -> u64 {
    if lo < hi {
        (lo + word % ((hi - lo) as u64)) as u64
    } else {
        lo
    }
}

/// A probability in parts per million. Anything from one million up is
/// certainty.
#[derive(Clone, Copy, Debug, PartialEq, Eq, Structural)]
pub struct Probability {
    pub ppm: u32,
}

impl Probability {
    pub fn never() -> (p: Probability)
        ensures
            p.ppm == 0,
    {
        Probability { ppm: 0 }
    }

    pub fn always() -> (p: Probability)
        ensures
            p.ppm == PPM,
    {
        Probability { ppm: PPM }
    }

    pub fn from_ppm(ppm: u32) -> (p: Probability)
        ensures
            p.ppm == ppm,
    {
        Probability { ppm }
    }

    pub fn from_percent(percent: u8) -> (p: Probability)
        ensures
            p.ppm == percent * 10_000,
    {
        let wide: u32 = percent as u32;
        Probability { ppm: wide * 10_000 }
    }
}

/// A SplitMix64 generator.
#[derive(Debug)]
pub struct SeededRng {
    pub state: u64,
}

impl SeededRng {
    /// A generator whose first draw is `draw(seed)`.
    pub fn new(seed: u64) -> (rng: SeededRng)
        ensures
            rng.state == seed,
    {
        SeededRng { state: seed }
    }

    /// Draws one word.
    pub fn next_u64(&mut self) -> (word: u64)
        ensures
            word == draw(old(self).state),
            final(self).state == next_state(old(self).state),
    {
        self.state = self.state.wrapping_add(GOLDEN_GAMMA);
        let z: u64 = self.state;
        let a: u64 = (z ^ (z >> 30)).wrapping_mul(MIX_MULTIPLIER_1);
        let b: u64 = (a ^ (a >> 27)).wrapping_mul(MIX_MULTIPLIER_2);
        b ^ (b >> 31)
    }

    /// Flips a coin that comes up `true` with probability `p`. Always consumes
    /// exactly one word, whatever `p` is.
    pub fn next_bool(&mut self, p: Probability) -> (b: bool)
        ensures
            b == bernoulli(draw(old(self).state), p),
            final(self).state == next_state(old(self).state),
            p.ppm == 0 ==> !b,
            p.ppm >= PPM ==> b,
    {
        let word: u64 = self.next_u64();
        let slot: u64 = word % (PPM as u64);
        slot < p.ppm as u64
    }

    /// Draws a point of `[lo, hi)`; returns `lo` where the range is empty.
    /// Always consumes exactly one word.
    pub fn next_in_range(&mut self, lo: u64, hi: u64) -> (x: u64)
        ensures
            x == uniform(draw(old(self).state), lo, hi),
            final(self).state == next_state(old(self).state),
            lo < hi ==> lo <= x < hi,
            lo >= hi ==> x == lo,
    {
        let word: u64 = self.next_u64();
        if lo < hi {
            let span: u64 = hi - lo;
            lo + word % span
        } else {
            lo
        }
    }

    /// Draws a duration of `[lo, hi)`; returns `lo` where the range is empty.
    /// Always consumes exactly one word.
    pub fn next_duration(&mut self, lo: Duration, hi: Duration) -> (d: Duration)
        ensures
            d.nanos == uniform(draw(old(self).state), lo.nanos, hi.nanos),
            final(self).state == next_state(old(self).state),
            lo.nanos < hi.nanos ==> lo.nanos <= d.nanos < hi.nanos,
            lo.nanos >= hi.nanos ==> d == lo,
    {
        let nanos: u64 = self.next_in_range(lo.nanos, hi.nanos);
        Duration { nanos }
    }
}

} // verus!
