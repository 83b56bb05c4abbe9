//! A packed 32-bit RGBA color: four unsigned 8-bit channels stored in a fixed
//! byte order (r, g, b, a), so that a pixel-buffer write can be a single
//! 32-bit store. Packing to and unpacking from a 32-bit word are exact
//! inverses for every bit pattern.

use vstd::prelude::*;

verus! {

/// One RGBA8 color. Writing a color always overwrites all four destination
/// channels; alpha is carried, never interpreted (no blending).
#[derive(Clone, Copy, PartialEq, Eq, Structural, Debug, Hash)]
pub struct Color {
    pub r: u8,
    pub g: u8,
    pub b: u8,
    pub a: u8,
}

/// The 32-bit word whose little-endian byte order is (r, g, b, a).
pub open spec fn color_word(c: Color) -> u32 {
    (c.r as u32) | ((c.g as u32) << 8) | ((c.b as u32) << 16) | ((c.a as u32) << 24)
}

/// The color whose channels are the little-endian bytes of `w`.
pub open spec fn word_color(w: u32) -> Color {
    Color {
        r: (w & 0xFF) as u8,
        g: ((w >> 8) & 0xFF) as u8,
        b: ((w >> 16) & 0xFF) as u8,
        a: ((w >> 24) & 0xFF) as u8,
    }
}

impl Color {
    pub fn rgba(r: u8, g: u8, b: u8, a: u8) -> (c: Self)
        ensures
            c == (Color { r, g, b, a }),
    {
        Color { r, g, b, a }
    }

    /// An opaque color (alpha 255).
    pub fn rgb(r: u8, g: u8, b: u8) -> (c: Self)
        ensures
            c == (Color { r, g, b, a: 255u8 }),
    {
        Color { r, g, b, a: 255 }
    }

    /// A gray value with the given alpha.
    pub fn shade_a(shade: u8, a: u8) -> (c: Self)
        ensures
            c == (Color { r: shade, g: shade, b: shade, a }),
    {
        Color { r: shade, g: shade, b: shade, a }
    }

    /// An opaque gray value.
    pub fn shade(shade: u8) -> (c: Self)
        ensures
            c == (Color { r: shade, g: shade, b: shade, a: 255u8 }),
    {
        Color { r: shade, g: shade, b: shade, a: 255 }
    }

    /// The packed 32-bit word for this color.
    pub fn to_u32(self) -> (w: u32)
        ensures
            w == color_word(self),
    {
        (self.r as u32) | ((self.g as u32) << 8) | ((self.b as u32) << 16) | ((self.a as u32)
            << 24)
    }

    /// The color stored in a packed 32-bit word.
    pub fn from_u32(w: u32) -> (c: Self)
        ensures
            c == word_color(w),
    {
        Color {
            r: (w & 0xFF) as u8,
            g: ((w >> 8) & 0xFF) as u8,
            b: ((w >> 16) & 0xFF) as u8,
            a: ((w >> 24) & 0xFF) as u8,
        }
    }

    /// Packs four channel bytes, given in (r, g, b, a) order.
    pub fn pack_rgba(r: u8, g: u8, b: u8, a: u8) -> (c: Self)
        ensures
            c == (Color { r, g, b, a }),
    {
        Self::pack([r, g, b, a])
    }

    /// Packs four channel bytes, given in (r, g, b, a) order.
    pub fn pack_const(r: u8, g: u8, b: u8, a: u8) -> (c: Self)
        ensures
            c == (Color { r, g, b, a }),
    {
        Self::pack([r, g, b, a])
    }

    /// Packs an array of channel bytes, in (r, g, b, a) order.
    pub fn pack(vals: [u8; 4]) -> (c: Self)
        ensures
            c == (Color { r: vals[0], g: vals[1], b: vals[2], a: vals[3] }),
    {
        Color { r: vals[0], g: vals[1], b: vals[2], a: vals[3] }
    }

    /// Unpacks the channel bytes, in (r, g, b, a) order.
    pub fn unpack(self) -> (vals: [u8; 4])
        ensures
            vals[0] == self.r,
            vals[1] == self.g,
            vals[2] == self.b,
            vals[3] == self.a,
    {
        [self.r, self.g, self.b, self.a]
    }
}

impl Color {
    /// Opaque white.
    pub fn white() -> (c: Self)
        ensures
            c == (Color { r: 255u8, g: 255u8, b: 255u8, a: 255u8 }),
    {
        Self::rgb(255, 255, 255)
    }

    /// Opaque black.
    pub fn black() -> (c: Self)
        ensures
            c == (Color { r: 0u8, g: 0u8, b: 0u8, a: 255u8 }),
    {
        Self::rgb(0, 0, 0)
    }

    /// Opaque red.
    pub fn red() -> (c: Self)
        ensures
            c == (Color { r: 255u8, g: 0u8, b: 0u8, a: 255u8 }),
    {
        Self::rgb(255, 0, 0)
    }

    /// Opaque green.
    pub fn green() -> (c: Self)
        ensures
            c == (Color { r: 0u8, g: 255u8, b: 0u8, a: 255u8 }),
    {
        Self::rgb(0, 255, 0)
    }

    /// Opaque blue.
    pub fn blue() -> (c: Self)
        ensures
            c == (Color { r: 0u8, g: 0u8, b: 255u8, a: 255u8 }),
    {
        Self::rgb(0, 0, 255)
    }

    /// Opaque yellow.
    pub fn yellow() -> (c: Self)
        ensures
            c == (Color { r: 255u8, g: 255u8, b: 0u8, a: 255u8 }),
    {
        Self::rgb(255, 255, 0)
    }

    /// Opaque cyan.
    pub fn cyan() -> (c: Self)
        ensures
            c == (Color { r: 0u8, g: 255u8, b: 255u8, a: 255u8 }),
    {
        Self::rgb(0, 255, 255)
    }

    /// Opaque magenta.
    pub fn magenta() -> (c: Self)
        ensures
            c == (Color { r: 255u8, g: 0u8, b: 255u8, a: 255u8 }),
    {
        Self::rgb(255, 0, 255)
    }
}

/// Channels survive a round trip through the packed word: for every
/// (r, g, b, a), unpacking the word packed from those channels returns
/// exactly those channels.
pub proof fn lemma_color_round_trip(r: u8, g: u8, b: u8, a: u8)
    ensures
        word_color(color_word(Color { r, g, b, a })) == (Color { r, g, b, a }),
{
    assert((((r as u32) | ((g as u32) << 8) | ((b as u32) << 16) | ((a as u32) << 24)) & 0xFF)
        as u8 == r) by (bit_vector);
    assert(((((r as u32) | ((g as u32) << 8) | ((b as u32) << 16) | ((a as u32) << 24)) >> 8)
        & 0xFF) as u8 == g) by (bit_vector);
    assert(((((r as u32) | ((g as u32) << 8) | ((b as u32) << 16) | ((a as u32) << 24)) >> 16)
        & 0xFF) as u8 == b) by (bit_vector);
    assert(((((r as u32) | ((g as u32) << 8) | ((b as u32) << 16) | ((a as u32) << 24)) >> 24)
        & 0xFF) as u8 == a) by (bit_vector);
}

/// A packed word survives a round trip through the four channels: packing and
/// unpacking are exact inverses for all 2^32 bit patterns.
pub proof fn lemma_word_round_trip(w: u32)
    ensures
        color_word(word_color(w)) == w,
{
    assert((((w & 0xFF) as u8) as u32) | (((((w >> 8) & 0xFF) as u8) as u32) << 8)
        | (((((w >> 16) & 0xFF) as u8) as u32) << 16) | (((((w >> 24) & 0xFF) as u8) as u32)
        << 24) == w) by (bit_vector);
}

} // verus!
