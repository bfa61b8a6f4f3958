//! A deterministic, seedable pseudo-random generator.
//!
//! Rendering is Monte-Carlo: pixel jitter, diffuse scattering and the
//! refraction branch all draw from this generator. Keeping it a small,
//! fully specified state machine makes a render reproducible from its seed,
//! so tests can pin exact images. When no reproducibility is wanted, a seed
//! can be drawn from the operating system's entropy instead.

use vstd::prelude::*;

verus! {

/// Increment of the underlying Weyl sequence.
pub const GAMMA: u64 = 0x9E37_79B9_7F4A_7C15;

/// State after one step: the seed walks a Weyl sequence.
pub open spec fn sm_step(s: u64) -> u64 {
    ((s as int + 0x9E37_79B9_7F4A_7C15) % 0x1_0000_0000_0000_0000) as u64
}

/// Output mix of one step: xor-shifts and two odd multipliers spread the
/// Weyl-sequence bits. Opaque: callers treat the output as an opaque draw,
/// and only `next_u64` computes it.
#[verifier::opaque]
pub open spec fn sm_mix(z0: u64) -> u64 {
    let z1 = z0 ^ (z0 >> 30);
    let z2 = ((z1 as int * 0xBF58_476D_1CE4_E5B9) % 0x1_0000_0000_0000_0000) as u64;
    let z3 = z2 ^ (z2 >> 27);
    let z4 = ((z3 as int * 0x94D0_49BB_1331_11EB) % 0x1_0000_0000_0000_0000) as u64;
    z4 ^ (z4 >> 31)
}

/// The word one step of the generator returns.
pub open spec fn sm_out(s: u64) -> u64 {
    sm_mix(sm_step(s))
}

/// The deterministic generator: a single 64-bit state word.
#[derive(Clone, Copy, PartialEq, Eq, Structural, Debug)]
pub struct SmRng {
    pub state: u64,
}

impl SmRng {
    pub fn new(seed: u64) -> (r: SmRng)
        ensures
            r.state == seed,
    {
        SmRng { state: seed }
    }

    /// Advance one step and return the mixed output word.
    pub fn next_u64(&mut self) -> (r: u64)
        ensures
            final(self).state == sm_step(old(self).state),
            r == sm_out(old(self).state),
    {
        proof {
            reveal(sm_mix);
        }
        let s0: u64 = self.state;
        let s1: u64 = (((s0 as u128) + (GAMMA as u128)) % 0x1_0000_0000_0000_0000) as u64;
        self.state = s1;
        let z1: u64 = s1 ^ (s1 >> 30);
        let z2: u64 = (((z1 as u128) * 0xBF58_476D_1CE4_E5B9) % 0x1_0000_0000_0000_0000) as u64;
        let z3: u64 = z2 ^ (z2 >> 27);
        let z4: u64 = (((z3 as u128) * 0x94D0_49BB_1331_11EB) % 0x1_0000_0000_0000_0000) as u64;
        z4 ^ (z4 >> 31)
    }

    /// Draw a word below `n`.
    pub fn next_below(&mut self, n: u64) -> (r: u64)
        requires
            n > 0,
        ensures
            final(self).state == sm_step(old(self).state),
            r == sm_out(old(self).state) as int % n as int,
            r < n,
    {
        self.next_u64() % n
    }

    /// Draw a seed from the operating system's entropy, for renders that
    /// do not ask for reproducibility.
    ///
    /// Relies on rand::random: a fresh draw from the thread-local
    /// generator; nothing can be promised of its value.
    pub fn fresh_seed() -> u64 {
        rand::random::<u64>()
    }

    /// Draw a fixed-point scalar from the inclusive range `[lo, hi]`.
    pub fn next_range(&mut self, lo: i64, hi: i64) -> (r: i64)
        requires
            lo <= hi,
            -0x1_0000_0000 <= lo,
            hi <= 0x1_0000_0000,
        ensures
            final(self).state == sm_step(old(self).state),
            r as int == lo as int + sm_out(old(self).state) as int % (hi as int - lo as int + 1),
            lo <= r <= hi,
    {
        let span: u64 = ((hi - lo) as u64) + 1;
        let d = self.next_below(span);
        lo + (d as i64)
    }
}

pub assume_specification<T>[ rand::random::<T> ]() -> (r: T)
    where
        rand::distributions::Standard: rand::distributions::Distribution<T>,
;

} // verus!
