//! Deterministic pseudo-random numbers for procedural animation and noise.
use vstd::prelude::*;
use crate::pixel::{fnv1a, fnv1a_write_u64, lemma_fnv1a_concat, u64_le_bytes};
use crate::plan::NodeIdx;
use crate::property::{PropertyKey, key_code};

verus! {

/// SplitMix64 increment.
pub const SPLITMIX_GAMMA: u64 = 0x9E37_79B9_7F4A_7C15;

/// `a * b` modulo `2^64`.
pub open spec fn wmul(a: u64, b: u64) -> u64 {
    ((a as nat * b as nat) % 0x1_0000_0000_0000_0000nat) as u64
}

/// SplitMix64 output function applied to a state.
pub open spec fn splitmix_mix(s: u64) -> u64 {
    let z1 = wmul(s ^ (s >> 30u64), 0xBF58_476D_1CE4_E5B9);
    let z2 = wmul(z1 ^ (z1 >> 27u64), 0x94D0_49BB_1331_11EB);
    z2 ^ (z2 >> 31u64)
}

/// State after one step: `state + SPLITMIX_GAMMA` modulo `2^64`.
pub open spec fn splitmix_next_state(s: u64) -> u64 {
    ((s as nat + SPLITMIX_GAMMA as nat) % 0x1_0000_0000_0000_0000nat) as u64
}

/// SplitMix64 generator.
#[derive(Debug, Clone, Copy)]
pub struct Rng64 {
    state: u64,
}

impl Rng64 {
    /// Current state.
    pub closed spec fn state(&self) -> u64 {
        self.state
    }

    /// A generator seeded with `seed`.
    pub fn new(seed: u64) -> (r: Self)
        ensures
            r.state() == seed,
    {
        Rng64 { state: seed }
    }

    /// Next 64-bit value: advance the state by the SplitMix64 increment and mix it.
    pub fn next_u64(&mut self) -> (r: u64)
        ensures
            final(self).state() == splitmix_next_state(old(self).state()),
            r == splitmix_mix(final(self).state()),
    {
        self.state = self.state.wrapping_add(SPLITMIX_GAMMA);
        let s = self.state;
        let z1 = (s ^ (s >> 30)).wrapping_mul(0xBF58_476D_1CE4_E5B9);
        let z2 = (z1 ^ (z1 >> 27)).wrapping_mul(0x94D0_49BB_1331_11EB);
        z2 ^ (z2 >> 31)
    }

    /// Next 53 random bits: the next 64-bit value shifted right by 11, the numerator
    /// of a uniform fraction in `[0, 1)` over `2^53`.
    pub fn next_bits53(&mut self) -> (r: u64)
        ensures
            final(self).state() == splitmix_next_state(old(self).state()),
            r == splitmix_mix(final(self).state()) >> 11u64,
            r < 0x20_0000_0000_0000u64,
    {
        let v = self.next_u64();
        assert(v >> 11u64 < 0x20_0000_0000_0000u64) by (bit_vector);
        v >> 11
    }
}

/// Multiplier that spreads a noise lattice index over the seed.
pub const NOISE_LATTICE_MUL: u64 = 0xD6E8_FEB8_6659_FD93;

/// 53 random bits of 1-D value noise at lattice point `x`: a fresh generator seeded
/// with `seed ^ (x * NOISE_LATTICE_MUL mod 2^64)` draws once.
pub fn noise_bits(seed: u64, x: u64) -> (r: u64)
    ensures
        r == splitmix_mix(splitmix_next_state(seed ^ wmul(x, NOISE_LATTICE_MUL))) >> 11u64,
        r < 0x20_0000_0000_0000u64,
{
    let m = x.wrapping_mul(NOISE_LATTICE_MUL);
    let mut rng = Rng64::new(seed ^ m);
    rng.next_bits53()
}

/// Seed of a node lane's procedural animation: FNV-1a from state `base` over the
/// little-endian bytes of the node index and then of the lane code.
pub fn mixed_seed(base: u64, node: NodeIdx, lane: PropertyKey) -> (r: u64)
    ensures
        r == fnv1a(base, u64_le_bytes(node.0 as u64) + u64_le_bytes(key_code(lane) as u64)),
{
    let h1 = fnv1a_write_u64(base, node.0 as u64);
    let h2 = fnv1a_write_u64(h1, lane.as_u32() as u64);
    proof {
        lemma_fnv1a_concat(base, u64_le_bytes(node.0 as u64), u64_le_bytes(key_code(lane) as u64));
    }
    h2
}

} // verus!
