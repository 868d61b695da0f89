//! A deterministic pseudo-random generator (xorshift) with an exact
//! transition function, so sampling code can carry exact contracts.

use vstd::prelude::*;

verus! {

/// The fixed seed every generator starts from; renders are reproducible.
pub const RANDOM_SEED: u64 = 0x9e3779b97f4a7c15;

/// One xorshift step of the generator state.
pub open spec fn rng_next(s: u64) -> u64 {
    let a = s ^ (s << 13);
    let b = a ^ (a >> 7);
    b ^ (b << 17)
}

/// The scalar in `[0, 1)` (raw `[0, SCALE)`) drawn from a state.
pub open spec fn rand_unit(s: u64) -> int {
    ((rng_next(s) >> 24) & 0xffff) as int
}

/// The scalar in `[-1, 1)` (raw `[-SCALE, SCALE)`) drawn from a state.
pub open spec fn rand_bilateral(s: u64) -> int {
    ((rng_next(s) >> 24) & 0x1ffff) as int - 65536
}

/// A pseudo-random stream of fixed-point scalars.
#[derive(Clone, Copy, Debug)]
pub struct Random {
    pub state: u64,
}

impl Random {
    /// A generator seeded with the fixed default seed.
    pub fn new() -> (r: Random)
        ensures
            r.state == RANDOM_SEED,
    {
        Random { state: 0x9e3779b97f4a7c15 }
    }

    /// A generator seeded explicitly.
    pub fn new_seeded(seed: u64) -> (r: Random)
        ensures
            r.state == seed,
    {
        Random { state: seed }
    }

    /// Draws a scalar uniformly from `[0, 1)`.
    pub fn random_scalar(&mut self) -> (r: i64)
        ensures
            final(self).state == rng_next(old(self).state),
            r == rand_unit(old(self).state),
            0 <= r < 65536,
    {
        let s0 = self.state;
        let a = s0 ^ (s0 << 13);
        let b = a ^ (a >> 7);
        let s1 = b ^ (b << 17);
        self.state = s1;
        let bits: u64 = (s1 >> 24) & 0xffff;
        proof {
            assert((s1 >> 24) & 0xffff < 0x10000u64) by (bit_vector);
        }
        bits as i64
    }

    /// Draws a scalar uniformly from `[-1, 1)`.
    pub fn random_bilateral(&mut self) -> (r: i64)
        ensures
            final(self).state == rng_next(old(self).state),
            r == rand_bilateral(old(self).state),
            -65536 <= r < 65536,
    {
        let s0 = self.state;
        let a = s0 ^ (s0 << 13);
        let b = a ^ (a >> 7);
        let s1 = b ^ (b << 17);
        self.state = s1;
        let bits: u64 = (s1 >> 24) & 0x1ffff;
        proof {
            assert((s1 >> 24) & 0x1ffff < 0x20000u64) by (bit_vector);
        }
        (bits as i64) - 65536
    }
}

} // verus!
