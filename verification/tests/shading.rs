use planet_render::color::Color;
use planet_render::noise::{create_cloud_noise, create_noise, NoiseKind, NoiseSettings, NOISE_SEED};
use planet_render::shading::{
    band_colors, cold_gas_giant_palette, gas_giant_palette, surface_of, ShaderType, Surface, BANDS,
};

#[test]
fn to_hex_packs_the_channels() {
    assert_eq!(Color::new(0x12, 0x34, 0x56).to_hex(), 0x123456);
    assert_eq!(Color::new(0, 0, 0).to_hex(), 0);
    assert_eq!(Color::new(255, 255, 255).to_hex(), 0xFFFFFF);
    assert_eq!(Color::new(255, 0, 0).to_hex(), 0xFF0000);
    assert_eq!(Color::new(0, 255, 0).to_hex(), 0x00FF00);
    assert_eq!(Color::new(0, 0, 255).to_hex(), 0x0000FF);
}

#[test]
fn from_hex_unpacks_and_drops_the_high_byte() {
    assert_eq!(Color::from_hex(0x123456), Color { r: 0x12, g: 0x34, b: 0x56 });
    assert_eq!(Color::from_hex(0xFF123456), Color { r: 0x12, g: 0x34, b: 0x56 });
    assert_eq!(Color::from_hex(0x333355).to_hex(), 0x333355);
}

#[test]
fn clamped_brings_channels_into_a_byte() {
    assert_eq!(Color::clamped(-5, 300, 128), Color { r: 0, g: 255, b: 128 });
    assert_eq!(Color::clamped(0, 255, 256), Color { r: 0, g: 255, b: 255 });
    assert_eq!(Color::clamped(i64::MIN, i64::MAX, -1), Color { r: 0, g: 255, b: 0 });
}

#[test]
fn palettes_hold_their_five_bands() {
    assert_eq!(BANDS, 5);
    assert_eq!(
        gas_giant_palette(),
        [
            Color { r: 110, g: 0, b: 90 },
            Color { r: 160, g: 20, b: 60 },
            Color { r: 130, g: 10, b: 80 },
            Color { r: 180, g: 40, b: 90 },
            Color { r: 140, g: 10, b: 70 },
        ]
    );
    assert_eq!(
        cold_gas_giant_palette(),
        [
            Color { r: 100, g: 150, b: 180 },
            Color { r: 120, g: 180, b: 200 },
            Color { r: 90, g: 140, b: 170 },
            Color { r: 130, g: 190, b: 210 },
            Color { r: 80, g: 120, b: 160 },
        ]
    );
}

#[test]
fn band_colors_wrap_around_the_palette() {
    let palette = gas_giant_palette();
    assert_eq!(band_colors(&palette, 0), (palette[0], palette[1]));
    assert_eq!(band_colors(&palette, 3), (palette[3], palette[4]));
    assert_eq!(band_colors(&palette, 4), (palette[4], palette[0]));
    assert_eq!(band_colors(&palette, 5), (palette[0], palette[1]));
    assert_eq!(band_colors(&palette, 7), (palette[2], palette[3]));
    assert_eq!(band_colors(&palette, i64::MAX), (palette[2], palette[3]));
}

#[test]
fn negative_band_level_counts_as_zero() {
    let palette = cold_gas_giant_palette();
    assert_eq!(band_colors(&palette, -1), (palette[0], palette[1]));
    assert_eq!(band_colors(&palette, i64::MIN), (palette[0], palette[1]));
}

#[test]
fn noise_settings_are_fixed() {
    let expected = NoiseSettings { seed: 1337, kind: NoiseKind::OpenSimplex2 };
    assert_eq!(NOISE_SEED, 1337);
    assert_eq!(create_cloud_noise(), expected);
    assert_eq!(create_noise(), expected);
}

#[test]
fn only_the_gas_giant_has_warm_bands() {
    assert_eq!(surface_of(ShaderType::GasGiant), Surface::WarmBands);
    for shader in [
        ShaderType::RockyPlanet,
        ShaderType::RockyPlanetVariant,
        ShaderType::ColdGasGiant,
        ShaderType::Solar,
        ShaderType::AlienPlanet,
        ShaderType::GlacialTextured,
        ShaderType::Moon,
    ] {
        assert_eq!(surface_of(shader), Surface::ColdBands);
    }
}
