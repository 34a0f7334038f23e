//! Deterministic pseudo-random numbers for the built-in clock simulator's
//! jitter (splitmix64).
use vstd::prelude::*;

verus! {

pub const GOLDEN_GAMMA: u64 = 0x9E3779B97F4A7C15;
pub const MIX_MUL_1: u64 = 0xBF58476D1CE4E5B9;
pub const MIX_MUL_2: u64 = 0x94D049BB133111EB;

/// The splitmix64 output function applied to an advanced state.
pub open spec fn mix(state: u64) -> u64 {
    let z1 = (state ^ (state >> 30u64)).wrapping_mul(MIX_MUL_1);
    let z2 = (z1 ^ (z1 >> 27u64)).wrapping_mul(MIX_MUL_2);
    z2 ^ (z2 >> 31u64)
}

/// splitmix64 generator state.
pub struct SplitMix64(pub u64);

impl SplitMix64 {
    /// Seeds the generator; the lowest bit is forced on, since a zero seed would
    /// make the first output degenerate.
    pub fn new(seed: u64) -> (r: Self)
        ensures
            r.0 == seed | 1u64,
    {
        SplitMix64(seed | 1)
    }

    /// Advances the state by the golden gamma (wrapping) and returns the mixed
    /// new state.
    pub fn next_u64(&mut self) -> (r: u64)
        ensures
            final(self).0 == old(self).0.wrapping_add(GOLDEN_GAMMA),
            r == mix(final(self).0),
    {
        self.0 = self.0.wrapping_add(GOLDEN_GAMMA);
        let mut z = self.0;
        z = (z ^ (z >> 30)).wrapping_mul(MIX_MUL_1);
        z = (z ^ (z >> 27)).wrapping_mul(MIX_MUL_2);
        z ^ (z >> 31)
    }
}

/// A seeded generator never starts from the zero state.
pub proof fn lemma_seeded_state_is_odd(seed: u64)
    ensures
        (seed | 1u64) & 1u64 == 1u64,
        (seed | 1u64) != 0u64,
{
    assert((seed | 1u64) & 1u64 == 1u64) by (bit_vector);
    assert((seed | 1u64) != 0u64) by (bit_vector);
}

} // verus!
