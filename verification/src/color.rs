//! Colours with one byte per channel and their packed form.

use vstd::prelude::*;

verus! {

/// The nearest value to `v` that a byte holds.
pub open spec fn clamp_byte(v: int) -> int {
    if v < 0 {
        0
    } else if v > 255 {
        255
    } else {
        v
    }
}

fn to_byte(v: i64) -> (byte: u8)
    ensures
        byte == clamp_byte(v as int),
{
    if v < 0 {
        0
    } else if v > 255 {
        255
    } else {
        v as u8
    }
}

/// An opaque colour of three channels.
#[derive(Clone, Copy, Debug, PartialEq, Eq, Structural)]
pub struct Color {
    pub r: u8,
    pub g: u8,
    pub b: u8,
}

impl Color {
    /// The number `0xRRGGBB` that a colour cell of the framebuffer holds.
    pub open spec fn packed(self) -> int {
        self.r * 0x1_0000 + self.g * 0x100 + self.b
    }

    pub fn new(r: u8, g: u8, b: u8) -> (c: Color)
        ensures
            c == (Color { r, g, b }),
    {
        Color { r, g, b }
    }

    /// The colour whose channels are `r`, `g` and `b`, each brought into
    /// the range of a byte.
    pub fn clamped(r: i64, g: i64, b: i64) -> (c: Color)
        ensures
            c.r == clamp_byte(r as int),
            c.g == clamp_byte(g as int),
            c.b == clamp_byte(b as int),
    {
        Color { r: to_byte(r), g: to_byte(g), b: to_byte(b) }
    }

    /// Packs the three channels into `0xRRGGBB`.
    pub fn to_hex(&self) -> (hex: u32)
        ensures
            hex == self.packed(),
    {
        let r: u32 = self.r as u32;
        let g: u32 = self.g as u32;
        let b: u32 = self.b as u32;
        assert((r << 16) | (g << 8) | b == r * 0x1_0000 + g * 0x100 + b) by (bit_vector)
            requires
                r < 0x100,
                g < 0x100,
                b < 0x100,
        ;
        (r << 16) | (g << 8) | b
    }

    /// Unpacks `0xRRGGBB`; bits above the 24th are dropped.
    pub fn from_hex(hex: u32) -> (c: Color)
        ensures
            c.packed() == hex % 0x100_0000,
    {
        let r: u32 = (hex >> 16) & 0xFF;
        let g: u32 = (hex >> 8) & 0xFF;
        let b: u32 = hex & 0xFF;
        assert(((hex >> 16) & 0xFF) < 0x100 && ((hex >> 8) & 0xFF) < 0x100 && (hex & 0xFF) < 0x100
            && ((hex >> 16) & 0xFF) * 0x1_0000 + ((hex >> 8) & 0xFF) * 0x100 + (hex & 0xFF) == hex
            % 0x100_0000) by (bit_vector);
        Color { r: r as u8, g: g as u8, b: b as u8 }
    }
}

/// Unpacking what was packed gives the colour back.
pub proof fn lemma_packed_is_injective(c: Color, d: Color)
    requires
        c.packed() == d.packed(),
    ensures
        c == d,
{
}

} // verus!
