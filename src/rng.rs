use vstd::prelude::*;

verus! {

/// Increment added to the state on every draw.
pub const GOLDEN_GAMMA: u64 = 0x9E37_79B9_7F4A_7C15;

/// Probabilities are given in parts per million: `PROB_SCALE` stands for 1.
pub const PROB_SCALE: u64 = 1_000_000;

pub const MIX_A: u64 = 0xBF58_476D_1CE4_E5B9;

pub const MIX_B: u64 = 0x94D0_49BB_1331_11EB;

pub open spec fn wrap_add(a: u64, b: u64) -> u64 {
    ((a as nat + b as nat) % 0x1_0000_0000_0000_0000) as u64
}

pub open spec fn wrap_mul(a: u64, b: u64) -> u64 {
    ((a as nat * b as nat) % 0x1_0000_0000_0000_0000) as u64
}

/// The state after one draw from state `s`.
pub open spec fn next_state(s: u64) -> u64 {
    wrap_add(s, GOLDEN_GAMMA)
}

/// The output function of the generator, applied to the advanced state.
pub open spec fn mix(z: u64) -> u64 {
    let z1 = wrap_mul(z ^ (z >> 30u64), MIX_A);
    let z2 = wrap_mul(z1 ^ (z1 >> 27u64), MIX_B);
    z2 ^ (z2 >> 31u64)
}

/// A small deterministic random source (SplitMix64).
/// Every stochastic operator of the library draws from one of these, so a run
/// is reproducible from its seed.
pub struct Rng {
    pub state: u64,
}

impl Rng {
    pub fn new(seed: u64) -> (r: Rng)
        ensures
            r.state == seed,
    {
        Rng { state: seed }
    }

    pub fn next_u64(&mut self) -> (r: u64)
        ensures
            final(self).state == wrap_add(old(self).state, GOLDEN_GAMMA),
            r == mix(final(self).state),
    {
        self.state = self.state.wrapping_add(GOLDEN_GAMMA);
        let z = self.state;
        let z1 = (z ^ (z >> 30u64)).wrapping_mul(MIX_A);
        let z2 = (z1 ^ (z1 >> 27u64)).wrapping_mul(MIX_B);
        z2 ^ (z2 >> 31u64)
    }

    /// A draw in `0..n`.
    pub fn below(&mut self, n: u64) -> (r: u64)
        requires
            n > 0,
        ensures
            final(self).state == wrap_add(old(self).state, GOLDEN_GAMMA),
            r == mix(final(self).state) % n,
            r < n,
    {
        let x = self.next_u64();
        x % n
    }

    /// A coin flip that comes up `true` with probability `rate / PROB_SCALE`.
    pub fn chance(&mut self, rate: u64) -> (r: bool)
        ensures
            final(self).state == wrap_add(old(self).state, GOLDEN_GAMMA),
            r == (mix(final(self).state) % PROB_SCALE < rate),
            rate == 0 ==> !r,
            rate >= PROB_SCALE ==> r,
    {
        let d = self.below(PROB_SCALE);
        d < rate
    }
}

} // verus!
