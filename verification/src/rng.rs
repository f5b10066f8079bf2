//! A small deterministic pseudo-random generator.
//!
//! The generator is a 64-bit counter whose successive values are scrambled
//! into output words. Every draw advances the counter by one step, so the
//! state after any number of draws is known from the number alone.

use vstd::prelude::*;
use crate::fixed::Fixed;
use crate::fixed::SCALE;

verus! {

/// Increment of the counter between two draws.
pub const GAMMA: u64 = 0x9E37_79B9_7F4A_7C15;

/// First multiplier of the scrambling function.
pub const MIX_A: u64 = 0xBF58_476D_1CE4_E5B9;

/// Second multiplier of the scrambling function.
pub const MIX_B: u64 = 0x94D0_49BB_1331_11EB;

/// Scrambles a counter value into an output word.
pub open spec fn mix(z: u64) -> u64 {
    let a = (z ^ (z >> 30u32)).wrapping_mul(MIX_A);
    let b = (a ^ (a >> 27u32)).wrapping_mul(MIX_B);
    b ^ (b >> 31u32)
}

/// Maps an output word to a raw fraction in `[0, SCALE)`, using its upper half.
pub open spec fn fraction(word: u64) -> int {
    ((word / 0x1_0000_0000) * SCALE) / 0x1_0000_0000
}

/// The state of the generator: the value of its counter.
#[derive(Clone, Copy, Debug, PartialEq, Eq, Structural)]
pub struct Rng {
    pub state: u64,
}

impl Rng {
    /// The generator after one draw.
    pub open spec fn next_state(self) -> Rng {
        Rng { state: self.state.wrapping_add(GAMMA) }
    }

    /// The generator after `n` draws.
    pub open spec fn skip(self, n: nat) -> Rng
        decreases n,
    {
        if n == 0 {
            self
        } else {
            self.skip((n - 1) as nat).next_state()
        }
    }

    /// The word that the next draw produces.
    pub open spec fn word(self) -> u64 {
        mix(self.next_state().state)
    }

    /// The number in `[0, 1)` that the next draw produces.
    pub open spec fn unit_spec(self) -> Fixed {
        Fixed::of(fraction(self.word()))
    }

    /// The number in `[min, max)` that the next draw produces.
    pub open spec fn range_spec(self, min: Fixed, max: Fixed) -> Fixed {
        min.plus(max.minus(min).times(self.unit_spec()))
    }

    /// The generator whose counter starts at `seed`.
    pub fn new(seed: u64) -> (r: Rng)
        ensures
            r.state == seed,
    {
        Rng { state: seed }
    }

    /// Draws a 64-bit word.
    pub fn next_u64(&mut self) -> (r: u64)
        ensures
            r == old(self).word(),
            *final(self) == old(self).next_state(),
    {
        self.state = self.state.wrapping_add(GAMMA);
        let z: u64 = self.state;
        let a: u64 = (z ^ (z >> 30u32)).wrapping_mul(MIX_A);
        let b: u64 = (a ^ (a >> 27u32)).wrapping_mul(MIX_B);
        b ^ (b >> 31u32)
    }

    /// Draws a number in `[0, 1)`.
    pub fn next_unit(&mut self) -> (r: Fixed)
        ensures
            r == old(self).unit_spec(),
            0 <= r.raw < SCALE,
            *final(self) == old(self).next_state(),
    {
        let word: u64 = self.next_u64();
        let upper: u64 = word / 0x1_0000_0000;
        let raw: u64 = (upper * 1_000_000_000) / 0x1_0000_0000;
        Fixed { raw: raw as i64 }
    }

    /// Draws a number in `[min, max)`.
    pub fn next_range(&mut self, min: Fixed, max: Fixed) -> (r: Fixed)
        ensures
            r == old(self).range_spec(min, max),
            *final(self) == old(self).next_state(),
    {
        let u: Fixed = self.next_unit();
        min + (max - min) * u
    }
}

/// Every word gives a fraction in `[0, 1)`.
pub proof fn lemma_fraction_bounds(word: u64)
    ensures
        0 <= fraction(word) < SCALE,
{
}

/// A draw from a range whose ends are in order and in range lies between
/// the ends.
pub proof fn lemma_range_bounds(rng: Rng, min: Fixed, max: Fixed)
    requires
        min.in_range(),
        min.raw <= max.raw,
    ensures
        min.raw <= rng.range_spec(min, max).raw <= max.raw,
{
    let u = rng.unit_spec().raw as int;
    lemma_fraction_bounds(rng.word());
    let w = max.minus(min).raw as int;
    assert(0 <= w);
    let n = w * u;
    assert(0 <= n <= w * SCALE) by (nonlinear_arith)
        requires
            n == w * u,
            0 <= w,
            0 <= u < SCALE,
    ;
    vstd::arithmetic::div_mod::lemma_div_is_ordered(n, w * SCALE, SCALE as int);
    vstd::arithmetic::div_mod::lemma_div_multiples_vanish(w, SCALE as int);
    vstd::arithmetic::div_mod::lemma_div_pos_is_pos(n, SCALE as int);
    assert(w * SCALE == SCALE * w) by (nonlinear_arith);
    let step = max.minus(min).times(rng.unit_spec()).raw as int;
    assert(0 <= step <= w);
}

} // verus!
