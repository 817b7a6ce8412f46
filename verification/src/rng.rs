//! The engine's random source.
//!
//! Seeding draws random numbers; so that a run is a mathematical function of
//! its inputs, the source is a small splittable-mix generator whose whole
//! state is one `u64`. Every draw is specified exactly, which is what makes
//! the determinism law of the quantizer provable. Fresh entropy for the seed
//! comes from the `rand` crate through one trusted item.

use vstd::prelude::*;
use vstd::wrapping::u64_specs;

verus! {

/// State-advance increment of the generator (the 64-bit golden ratio).
pub const RNG_GAMMA: u64 = 0x9E37_79B9_7F4A_7C15;

/// First mixing multiplier.
pub const RNG_M1: u64 = 0xBF58_476D_1CE4_E5B9;

/// Second mixing multiplier.
pub const RNG_M2: u64 = 0x94D0_49BB_1331_11EB;

/// The state that follows `s`.
pub open spec fn rng_step(s: u64) -> u64 {
    u64_specs::wrapping_add(s, RNG_GAMMA)
}

/// The output word mixed out of a state.
pub open spec fn mix64(z0: u64) -> u64 {
    let z1 = u64_specs::wrapping_mul(z0 ^ (z0 >> 30u64), RNG_M1);
    let z2 = u64_specs::wrapping_mul(z1 ^ (z1 >> 27u64), RNG_M2);
    z2 ^ (z2 >> 31u64)
}

/// The value a generator in state `s` produces on its next draw.
pub open spec fn rng_out(s: u64) -> u64 {
    mix64(rng_step(s))
}

/// The 128-bit value produced by two consecutive draws from state `s`.
pub open spec fn draw128(s: u64) -> int {
    rng_out(s) * 0x1_0000_0000_0000_0000 + rng_out(rng_step(s))
}

/// A draw below `bound` (0 when the bound is 0), from one 64-bit draw.
pub open spec fn below64_spec(s: u64, bound: u64) -> u64 {
    if bound == 0 {
        0
    } else {
        rng_out(s) % bound
    }
}

/// A draw below `bound` (0 when the bound is 0), from two 64-bit draws.
pub open spec fn below128_spec(s: u64, bound: u128) -> int {
    if bound == 0 {
        0
    } else {
        draw128(s) % (bound as int)
    }
}

/// A deterministic pseudo-random generator with a 64-bit state.
pub struct Rng64 {
    state: u64,
}

impl View for Rng64 {
    type V = u64;

    closed spec fn view(&self) -> u64 {
        self.state
    }
}

impl Rng64 {
    /// A generator starting from a caller-chosen seed.
    pub fn new(seed: u64) -> (r: Rng64)
        ensures
            r@ == seed,
    {
        Rng64 { state: seed }
    }

    /// A generator seeded from the process's entropy source.
    ///
    /// Relies on `rand::random`: a fresh value from the thread-local
    /// generator. Nothing is assumed about which value comes back.
    #[verifier::external_body]
    pub fn from_entropy() -> Rng64 {
        Rng64 { state: rand::random::<u64>() }
    }

    /// Advance the state once and mix an output word out of it.
    pub fn next_u64(&mut self) -> (r: u64)
        ensures
            final(self)@ == rng_step(old(self)@),
            r == rng_out(old(self)@),
    {
        let s: u64 = self.state.wrapping_add(RNG_GAMMA);
        self.state = s;
        let z1: u64 = (s ^ (s >> 30u64)).wrapping_mul(RNG_M1);
        let z2: u64 = (z1 ^ (z1 >> 27u64)).wrapping_mul(RNG_M2);
        z2 ^ (z2 >> 31u64)
    }

    /// One draw reduced below `bound`; 0 when the bound is 0.
    pub fn below_u64(&mut self, bound: u64) -> (r: u64)
        ensures
            final(self)@ == rng_step(old(self)@),
            r == below64_spec(old(self)@, bound),
            bound > 0 ==> r < bound,
    {
        let v: u64 = self.next_u64();
        if bound == 0 {
            0
        } else {
            v % bound
        }
    }

    /// Two draws combined and reduced below `bound`; 0 when the bound is 0.
    pub fn below_u128(&mut self, bound: u128) -> (r: u128)
        ensures
            final(self)@ == rng_step(rng_step(old(self)@)),
            r == below128_spec(old(self)@, bound),
            bound > 0 ==> r < bound,
    {
        let hi: u64 = self.next_u64();
        let lo: u64 = self.next_u64();
        assert(hi as int * 0x1_0000_0000_0000_0000 + lo as int <= u128::MAX as int) by (nonlinear_arith)
            requires hi <= u64::MAX, lo <= u64::MAX;
        let v: u128 = (hi as u128) * 0x1_0000_0000_0000_0000 + (lo as u128);
        if bound == 0 {
            0
        } else {
            v % bound
        }
    }
}

} // verus!
