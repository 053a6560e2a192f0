//! The discrete part of surface shading: the shader variants, their base
//! palettes and the choice of a band of the palette.

use crate::color::Color;
use vstd::prelude::*;

verus! {

/// The procedural surfaces that can be selected.
#[derive(Clone, Copy, Debug, PartialEq, Eq, Structural)]
pub enum ShaderType {
    RockyPlanet,
    RockyPlanetVariant,
    GasGiant,
    ColdGasGiant,
    Solar,
    AlienPlanet,
    GlacialTextured,
    Moon,
}

/// The procedures that compute the colour of a surface point.
#[derive(Clone, Copy, Debug, PartialEq, Eq, Structural)]
pub enum Surface {
    /// Flowing bands in the palette of the warm gas giant.
    WarmBands,
    /// Flowing bands, slanted by the wind, in the palette of the cold gas
    /// giant.
    ColdBands,
}

/// The procedure that a selection is drawn with: the warm gas giant has its
/// own, every other selection shows the cold bands.
pub fn surface_of(shader: ShaderType) -> (surface: Surface)
    ensures
        surface == (if shader == ShaderType::GasGiant {
            Surface::WarmBands
        } else {
            Surface::ColdBands
        }),
{
    match shader {
        ShaderType::GasGiant => Surface::WarmBands,
        _ => Surface::ColdBands,
    }
}

/// Number of bands in a palette.
pub const BANDS: usize = 5;

/// The band colours of the warm gas giant, as a sequence.
pub open spec fn gas_giant_bands() -> Seq<Color> {
    seq![
        Color { r: 110, g: 0, b: 90 },
        Color { r: 160, g: 20, b: 60 },
        Color { r: 130, g: 10, b: 80 },
        Color { r: 180, g: 40, b: 90 },
        Color { r: 140, g: 10, b: 70 },
    ]
}

/// The band colours of the cold gas giant, as a sequence.
pub open spec fn cold_gas_giant_bands() -> Seq<Color> {
    seq![
        Color { r: 100, g: 150, b: 180 },
        Color { r: 120, g: 180, b: 200 },
        Color { r: 90, g: 140, b: 170 },
        Color { r: 130, g: 190, b: 210 },
        Color { r: 80, g: 120, b: 160 },
    ]
}

/// The base palette of the warm gas giant.
pub fn gas_giant_palette() -> (palette: [Color; 5])
    ensures
        palette@ == gas_giant_bands(),
{
    let palette: [Color; 5] = [
        Color { r: 110, g: 0, b: 90 },
        Color { r: 160, g: 20, b: 60 },
        Color { r: 130, g: 10, b: 80 },
        Color { r: 180, g: 40, b: 90 },
        Color { r: 140, g: 10, b: 70 },
    ];
    assert(palette@ =~= gas_giant_bands());
    palette
}

/// The base palette of the cold gas giant.
pub fn cold_gas_giant_palette() -> (palette: [Color; 5])
    ensures
        palette@ == cold_gas_giant_bands(),
{
    let palette: [Color; 5] = [
        Color { r: 100, g: 150, b: 180 },
        Color { r: 120, g: 180, b: 200 },
        Color { r: 90, g: 140, b: 170 },
        Color { r: 130, g: 190, b: 210 },
        Color { r: 80, g: 120, b: 160 },
    ];
    assert(palette@ =~= cold_gas_giant_bands());
    palette
}

/// The band that a band level falls into: the level counted around the
/// palette, a negative level counting as 0.
pub open spec fn band_of(level: int) -> int {
    if level < 0 {
        0
    } else {
        level % (BANDS as int)
    }
}

/// The band after `band`, the first one again after the last.
pub open spec fn band_after(band: int) -> int {
    (band + 1) % (BANDS as int)
}

/// The colours between which a surface point is blended, for the whole part
/// `level` of its band level: the colour of its band, and the colour of the
/// band after it.
pub fn band_colors(palette: &[Color; 5], level: i64) -> (pair: (Color, Color))
    ensures
        pair.0 == palette@[band_of(level as int)],
        pair.1 == palette@[band_after(band_of(level as int))],
{
    let band: usize = if level < 0 {
        0
    } else {
        (level % 5) as usize
    };
    let next: usize = (band + 1) % BANDS;
    (palette[band], palette[next])
}

} // verus!
