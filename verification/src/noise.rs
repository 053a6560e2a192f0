//! The settings of the coherent-noise generator that the surfaces are shaded
//! with. The generator itself works in floating point and is built from
//! these settings by the caller.

use vstd::prelude::*;

verus! {

/// The noise algorithms that a generator offers.
#[derive(Clone, Copy, Debug, PartialEq, Eq, Structural)]
pub enum NoiseKind {
    OpenSimplex2,
    OpenSimplex2S,
    Cellular,
    Perlin,
    ValueCubic,
    Value,
}

/// What fixes a generator's noise field: the same settings give the same
/// field.
#[derive(Clone, Copy, Debug, PartialEq, Eq, Structural)]
pub struct NoiseSettings {
    pub seed: i32,
    pub kind: NoiseKind,
}

/// The seed of every surface of the scene.
pub const NOISE_SEED: i32 = 1337;

/// The settings of the cloud noise: the scene's seed with the
/// second-generation simplex algorithm.
pub fn create_cloud_noise() -> (settings: NoiseSettings)
    ensures
        settings == (NoiseSettings { seed: NOISE_SEED, kind: NoiseKind::OpenSimplex2 }),
{
    NoiseSettings { seed: NOISE_SEED, kind: NoiseKind::OpenSimplex2 }
}

/// The settings of the noise that a draw call shades with: the cloud noise.
pub fn create_noise() -> (settings: NoiseSettings)
    ensures
        settings == (NoiseSettings { seed: NOISE_SEED, kind: NoiseKind::OpenSimplex2 }),
{
    create_cloud_noise()
}

} // verus!
