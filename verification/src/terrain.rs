//! Deterministic integer terrain sampling.
//!
//! Heights are produced by a fixed integer mixing function of the sampler's
//! seed and the tile coordinates, so the same seed always yields the same
//! terrain, in this process and in any later one.

use vstd::prelude::*;
use vstd::wrapping::u64_specs;

verus! {

/// Largest height a tile can have; heights range over `0 ..= MAX_HEIGHT`.
pub const MAX_HEIGHT: u64 = 5;

pub const MIX_MUL_X: u64 = 0x9E3779B97F4A7C15;
pub const MIX_MUL_Y: u64 = 0xC2B2AE3D27D4EB4F;
pub const MIX_MUL_FINAL: u64 = 0xFF51AFD7ED558CCD;

/// The raw 64-bit mix of seed and coordinates.
pub open spec fn spec_mix(seed: u64, x: i64, y: i64) -> u64 {
    let ux = u64_specs::wrapping_add_signed(0u64, x);
    let uy = u64_specs::wrapping_add_signed(0u64, y);
    let h0 = seed ^ u64_specs::wrapping_mul(ux, MIX_MUL_X) ^ u64_specs::wrapping_mul(uy, MIX_MUL_Y);
    let h1 = h0 ^ (h0 >> 33u64);
    let h2 = u64_specs::wrapping_mul(h1, MIX_MUL_FINAL);
    h2 ^ (h2 >> 29u64)
}

/// The height at integer coordinates `(x, y)` for a given seed: the raw mix
/// folded into the band `0 ..= MAX_HEIGHT`.
pub open spec fn spec_sample(seed: u64, x: i64, y: i64) -> u64 {
    spec_mix(seed, x, y) % ((MAX_HEIGHT + 1) as u64)
}

/// A deterministic 2D height sampler, passed explicitly to everything that
/// generates terrain.
#[derive(Debug, Clone, Copy, PartialEq, Eq, Structural)]
pub struct TerrainSampler {
    pub seed: u64,
}

impl TerrainSampler {
    pub fn new(seed: u64) -> (r: Self)
        ensures
            r.seed == seed,
    {
        Self { seed }
    }

    /// The tile height at `(x, y)`: a pure function of the seed and the
    /// coordinates, always within `0 ..= MAX_HEIGHT`.
    pub fn sample(&self, x: i64, y: i64) -> (h: u64)
        ensures
            h == spec_sample(self.seed, x, y),
            h <= MAX_HEIGHT,
    {
        let ux = 0u64.wrapping_add_signed(x);
        let uy = 0u64.wrapping_add_signed(y);
        let h0 = self.seed ^ ux.wrapping_mul(MIX_MUL_X) ^ uy.wrapping_mul(MIX_MUL_Y);
        let h1 = h0 ^ (h0 >> 33u64);
        let h2 = h1.wrapping_mul(MIX_MUL_FINAL);
        let h3 = h2 ^ (h2 >> 29u64);
        h3 % (MAX_HEIGHT + 1)
    }
}

/// Sampling is reproducible: two samplers built from the same seed agree on
/// every coordinate, whether or not they belong to the same process run.
pub proof fn lemma_sample_reproducible(a: TerrainSampler, b: TerrainSampler, x: i64, y: i64)
    requires
        a.seed == b.seed,
    ensures
        spec_sample(a.seed, x, y) == spec_sample(b.seed, x, y),
{
}

} // verus!
