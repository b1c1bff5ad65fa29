//! A deterministic pseudo-random generator.
//!
//! Every sampling decision in the tracer draws from an explicitly seeded
//! generator that is threaded through the calls, so the whole render is a
//! function of scene, camera and seed, and workers can be handed
//! independent streams by deriving one sub-seed per image row.

use vstd::prelude::*;

verus! {

/// A 64-bit xorshift generator. The full state is one word; the next
/// state and output are the pure function `rng_next_s` of the current one.
pub struct Rng {
    pub state: u64,
}

/// The xorshift step: three shift-xor rounds.
pub open spec fn rng_next_s(s: u64) -> u64 {
    let a = s ^ (s << 13);
    let b = a ^ (a >> 7);
    b ^ (b << 17)
}

/// How a seed is folded into a starting state. A zero state would make
/// every later state zero, so it is replaced by the mixing constant.
pub open spec fn rng_seed_s(seed: u64) -> u64 {
    let s = seed ^ 0x9E3779B97F4A7C15;
    if s == 0 {
        0x9E3779B97F4A7C15
    } else {
        s
    }
}

/// The sub-seed a row of the image draws its samples from.
pub open spec fn row_seed_s(seed: u64, row: u64) -> u64 {
    seed ^ (row.wrapping_mul(0x9E3779B97F4A7C15)).wrapping_add(0xD1B54A32D192ED03)
}

/// The value in `[lo, hi)` that one step of the generator yields.
pub open spec fn rng_range_s(s: u64, lo: int, hi: int) -> int {
    lo + (rng_next_s(s) % ((hi - lo) as u64))
}

impl Rng {
    /// A generator whose stream is determined by `seed` alone.
    pub fn new(seed: u64) -> (r: Rng)
        ensures
            r.state == rng_seed_s(seed),
    {
        let s = seed ^ 0x9E3779B97F4A7C15;
        if s == 0 {
            Rng { state: 0x9E3779B97F4A7C15 }
        } else {
            Rng { state: s }
        }
    }

    /// Advance one step and return the new state as the raw output word.
    pub fn next_u64(&mut self) -> (r: u64)
        ensures
            final(self).state == rng_next_s(old(self).state),
            r == rng_next_s(old(self).state),
    {
        let s = self.state;
        let a = s ^ (s << 13u64);
        let b = a ^ (a >> 7u64);
        let c = b ^ (b << 17u64);
        self.state = c;
        c
    }

    /// A fixed-point value in `[lo, hi)`, uniform over the generator's word.
    pub fn gen_range(&mut self, lo: i64, hi: i64) -> (r: i64)
        requires
            lo < hi,
            -0x2000_0000_0000_0000 <= lo,
            hi <= 0x2000_0000_0000_0000,
        ensures
            final(self).state == rng_next_s(old(self).state),
            r as int == rng_range_s(old(self).state, lo as int, hi as int),
            lo <= r < hi,
    {
        let span = (hi - lo) as u64;
        let x = self.next_u64() % span;
        proof {
            vstd::arithmetic::div_mod::lemma_mod_division_less_than_divisor(
                rng_next_s(old(self).state) as int,
                span as int,
            );
        }
        lo + (x as i64)
    }
}

/// The seed for one row: derived from the render seed and the row index.
pub fn row_seed(seed: u64, row: u64) -> (r: u64)
    ensures
        r == row_seed_s(seed, row),
{
    seed ^ (row.wrapping_mul(0x9E3779B97F4A7C15)).wrapping_add(0xD1B54A32D192ED03)
}

} // verus!
