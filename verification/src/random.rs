//! Sources of random draws.
//!
//! A source is a deterministic stream: its state fixes the value of the
//! next draw and the state that follows. Two sources in the same state
//! therefore produce the same level.

use vstd::prelude::*;

verus! {

/// A stream of integers drawn from half-open ranges.
pub trait RandomSource: Sized {
    /// The value that the next draw from `[low, high)` yields.
    spec fn drawn(&self, low: int, high: int) -> int;

    /// The source as it is after a draw from `[low, high)`.
    spec fn rest(&self, low: int, high: int) -> Self;

    /// A draw lies in the range it was asked for.
    proof fn lemma_drawn_in_range(&self, low: int, high: int)
        requires
            low < high,
        ensures
            low <= self.drawn(low, high) < high,
    ;

    /// Draws the next value from `[low, high)`: `low` included, `high` not.
    /// The range must hold at least one value.
    fn range(&mut self, low: i32, high: i32) -> (value: i32)
        requires
            low < high,
        ensures
            low <= value < high,
            value == old(self).drawn(low as int, high as int),
            *final(self) == old(self).rest(low as int, high as int),
    ;
}

/// Multiplier of the congruential step.
pub const LCG_MULTIPLIER: u64 = 6364136223846793005;

/// Increment of the congruential step.
pub const LCG_INCREMENT: u64 = 1442695040888963407;

/// The state that follows `state`: `state * LCG_MULTIPLIER + LCG_INCREMENT`
/// modulo `2^64`.
pub open spec fn lcg_next(state: u64) -> u64 {
    ((state * LCG_MULTIPLIER + LCG_INCREMENT) % 0x1_0000_0000_0000_0000) as u64
}

/// The upper 32 bits of `state`, which a draw is made from.
pub open spec fn lcg_bits(state: u64) -> int {
    (state / 0x1_0000_0000) as int
}

/// A seeded linear congruential generator with a 64-bit state.
#[derive(Clone, Copy, Debug)]
pub struct Lcg {
    pub state: u64,
}

impl Lcg {
    /// The generator that starts from `seed`.
    pub fn new(seed: u64) -> (rng: Lcg)
        ensures
            rng.state == seed,
    {
        Lcg { state: seed }
    }
}

impl RandomSource for Lcg {
    open spec fn drawn(&self, low: int, high: int) -> int {
        low + lcg_bits(lcg_next(self.state)) % (high - low)
    }

    open spec fn rest(&self, low: int, high: int) -> Lcg {
        Lcg { state: lcg_next(self.state) }
    }

    proof fn lemma_drawn_in_range(&self, low: int, high: int) {
        vstd::arithmetic::div_mod::lemma_mod_bound(lcg_bits(lcg_next(self.state)), high - low);
    }

    fn range(&mut self, low: i32, high: i32) -> (value: i32) {
        assert(self.state * LCG_MULTIPLIER <= 0xffff_ffff_ffff_ffff * 0xffff_ffff_ffff_ffff)
            by (nonlinear_arith)
            requires
                self.state <= 0xffff_ffff_ffff_ffff,
                LCG_MULTIPLIER <= 0xffff_ffff_ffff_ffff,
        ;
        let wide: u128 = self.state as u128 * (LCG_MULTIPLIER as u128) + (LCG_INCREMENT as u128);
        let next: u64 = (wide % 0x1_0000_0000_0000_0000) as u64;
        let bits: i64 = (next / 0x1_0000_0000) as i64;
        let span: i64 = high as i64 - low as i64;
        proof {
            vstd::arithmetic::div_mod::lemma_mod_bound(bits as int, span as int);
        }
        let value: i64 = low as i64 + bits % span;
        self.state = next;
        value as i32
    }
}

/// The value nearest to `value` in `[low, high)`.
pub open spec fn clamped(value: int, low: int, high: int) -> int {
    if value < low {
        low
    } else if value >= high {
        high - 1
    } else {
        value
    }
}

/// A source that replays a fixed list of draws over and over, each moved
/// to the nearest value of the range that is asked for. With an empty list
/// every draw is the low end of its range.
#[derive(Debug)]
pub struct Scripted {
    pub draws: Vec<i32>,
    pub next: usize,
}

impl Scripted {
    /// The source that replays `draws` from its first entry.
    pub fn new(draws: Vec<i32>) -> (rng: Scripted)
        ensures
            rng.draws == draws,
            rng.next == 0,
    {
        Scripted { draws, next: 0 }
    }

    /// The position in the list that the next draw is read from.
    pub open spec fn cursor(&self) -> int {
        if self.draws@.len() == 0 {
            0
        } else {
            (self.next as int) % (self.draws@.len() as int)
        }
    }
}

impl RandomSource for Scripted {
    open spec fn drawn(&self, low: int, high: int) -> int {
        if self.draws@.len() == 0 {
            low
        } else {
            clamped(self.draws@[self.cursor()] as int, low, high)
        }
    }

    open spec fn rest(&self, low: int, high: int) -> Scripted {
        if self.draws@.len() == 0 {
            *self
        } else {
            Scripted { draws: self.draws, next: (self.cursor() + 1) as usize }
        }
    }

    proof fn lemma_drawn_in_range(&self, low: int, high: int) {
    }

    fn range(&mut self, low: i32, high: i32) -> (value: i32) {
        let len: usize = self.draws.len();
        if len == 0 {
            return low;
        }
        let at: usize = self.next % len;
        let raw: i32 = self.draws[at];
        self.next = at + 1;
        if raw < low {
            low
        } else if raw >= high {
            high - 1
        } else {
            raw
        }
    }
}

} // verus!
