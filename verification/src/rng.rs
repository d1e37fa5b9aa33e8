//! Deterministic pseudo-random numbers for level generation and spawning.
//!
//! A splitmix-style generator: the state advances by a fixed odd increment and
//! each draw scrambles the new state. Every draw is a pure function of the
//! state, so a level is reproducible from its seed alone.

use vstd::prelude::*;

verus! {

/// State increment for each draw.
pub const RNG_INCREMENT: u64 = 0x9E3779B97F4A7C15;
/// First scrambling multiplier.
pub const RNG_MULT_A: u64 = 0xBF58476D1CE4E5B9;
/// Second scrambling multiplier.
pub const RNG_MULT_B: u64 = 0x94D049BB133111EB;

/// The state after one draw.
pub open spec fn rng_next_state(s: u64) -> u64 {
    s.wrapping_add(RNG_INCREMENT)
}

/// The raw 64-bit value a draw yields from the advanced state.
pub open spec fn rng_mix(s: u64) -> u64 {
    let a = (s ^ (s >> 30u64)).wrapping_mul(RNG_MULT_A);
    let b = (a ^ (a >> 27u64)).wrapping_mul(RNG_MULT_B);
    b ^ (b >> 31u64)
}

/// The value `range(lo, hi)` returns in state `s`.
pub open spec fn rng_range_value(s: u64, lo: i32, hi: i32) -> int
    recommends
        lo < hi,
{
    lo + rng_mix(rng_next_state(s)) as int % (hi - lo)
}

/// The state after `n` draws.
pub open spec fn rng_state_after(s: u64, n: int) -> u64
    decreases n,
{
    if n <= 0 {
        s
    } else {
        rng_state_after(rng_next_state(s), n - 1)
    }
}

/// The total of `n` dice with `die` faces each, drawn from state `s`.
pub open spec fn rng_roll_total(s: u64, n: int, die: i32) -> int
    decreases n,
{
    if n <= 0 {
        0
    } else {
        rng_range_value(s, 1, (die + 1) as i32) + rng_roll_total(rng_next_state(s), n - 1, die)
    }
}

/// Drawing once more adds one more summand at the end of the total.
proof fn lemma_roll_total_step(s: u64, n: int, die: i32)
    requires
        0 <= n,
    ensures
        rng_roll_total(s, n + 1, die) == rng_roll_total(s, n, die) + rng_range_value(
            rng_state_after(s, n),
            1,
            (die + 1) as i32,
        ),
        rng_state_after(s, n + 1) == rng_next_state(rng_state_after(s, n)),
    decreases n,
{
    reveal_with_fuel(rng_roll_total, 3);
    reveal_with_fuel(rng_state_after, 3);
    if n > 0 {
        lemma_roll_total_step(rng_next_state(s), n - 1, die);
    }
}

pub struct Rng {
    pub state: u64,
}

impl Rng {
    /// A generator whose whole future is determined by `seed`.
    pub fn new(seed: u64) -> (r: Rng)
        ensures
            r.state == seed,
    {
        Rng { state: seed }
    }

    /// One raw draw.
    fn next_u64(&mut self) -> (r: u64)
        ensures
            final(self).state == rng_next_state(old(self).state),
            r == rng_mix(final(self).state),
    {
        self.state = self.state.wrapping_add(RNG_INCREMENT);
        let s = self.state;
        let a = (s ^ (s >> 30u64)).wrapping_mul(RNG_MULT_A);
        let b = (a ^ (a >> 27u64)).wrapping_mul(RNG_MULT_B);
        b ^ (b >> 31u64)
    }

    /// A value drawn from `lo..hi` (half-open).
    pub fn range(&mut self, lo: i32, hi: i32) -> (r: i32)
        requires
            lo < hi,
        ensures
            lo <= r < hi,
            r == rng_range_value(old(self).state, lo, hi),
            final(self).state == rng_next_state(old(self).state),
    {
        let span = (hi as i64 - lo as i64) as u64;
        let raw = self.next_u64();
        let off = raw % span;
        assert(off < span);
        assert(lo + off as int == rng_range_value(old(self).state, lo, hi)) by {
            assert(span == hi - lo);
        }
        (lo as i64 + off as i64) as i32
    }

    /// The total of `n` dice with `die` faces each, as of an `n`d`die` roll.
    pub fn roll_dice(&mut self, n: i32, die: i32) -> (r: i32)
        requires
            1 <= n,
            1 <= die < i32::MAX,
            n * die <= i32::MAX,
        ensures
            n <= r <= n * die,
            r == rng_roll_total(old(self).state, n as int, die),
            final(self).state == rng_state_after(old(self).state, n as int),
    {
        let mut total: i32 = 0;
        let mut rolled: i32 = 0;
        while rolled < n
            invariant
                0 <= rolled <= n,
                rolled <= total <= rolled * die,
                1 <= die < i32::MAX,
                n * die <= i32::MAX,
                total == rng_roll_total(old(self).state, rolled as int, die),
                self.state == rng_state_after(old(self).state, rolled as int),
            decreases n - rolled,
        {
            assert(rolled * die + die <= n * die && (rolled + 1) * die == rolled * die + die)
                by (nonlinear_arith)
                requires rolled < n, 1 <= die,
            {}
            proof {
                lemma_roll_total_step(old(self).state, rolled as int, die);
            }
            let one = self.range(1, die + 1);
            total = total + one;
            rolled = rolled + 1;
        }
        total
    }
}

} // verus!
