use vstd::prelude::*;

verus! {

/// A color packed as `0xAARRGGBB`.
#[derive(Clone, Copy, Debug, PartialEq, Eq, Hash, Structural)]
pub struct Color(pub u32);

/// The byte of `word` that starts at bit `shift`.
pub open spec fn byte_at(word: u32, shift: u32) -> u8 {
    ((word >> shift) & 0xff) as u8
}

/// The packed word holding the four channels.
pub open spec fn pack_rgba(r: u8, g: u8, b: u8, a: u8) -> u32 {
    ((a as u32) << 24u32) | ((r as u32) << 16u32) | ((g as u32) << 8u32) | (b as u32)
}

impl Color {
    /// Create a new color from its red, green, blue and alpha channels.
    pub fn rgba(r: u8, g: u8, b: u8, a: u8) -> (c: Self)
        ensures
            c.0 == pack_rgba(r, g, b, a),
    {
        Color(((a as u32) << 24u32) | ((r as u32) << 16u32) | ((g as u32) << 8u32) | (b as u32))
    }

    /// Create a new opaque color from its red, green and blue channels.
    pub fn rgb(r: u8, g: u8, b: u8) -> (c: Self)
        ensures
            c.0 == pack_rgba(r, g, b, 0xff),
    {
        Self::rgba(r, g, b, 0xff)
    }

    /// The red channel.
    pub fn r(&self) -> (v: u8)
        ensures
            v == byte_at(self.0, 16),
    {
        ((self.0 >> 16u32) & 0xff) as u8
    }

    /// The green channel.
    pub fn g(&self) -> (v: u8)
        ensures
            v == byte_at(self.0, 8),
    {
        ((self.0 >> 8u32) & 0xff) as u8
    }

    /// The blue channel.
    pub fn b(&self) -> (v: u8)
        ensures
            v == byte_at(self.0, 0),
    {
        let word = self.0;
        assert(word >> 0u32 == word) by (bit_vector);
        (word & 0xff) as u8
    }

    /// The alpha channel.
    pub fn a(&self) -> (v: u8)
        ensures
            v == byte_at(self.0, 24),
    {
        ((self.0 >> 24u32) & 0xff) as u8
    }
}

/// Packing four channels and reading them back gives the same four channels.
pub proof fn lemma_rgba_channels(r: u8, g: u8, b: u8, a: u8)
    ensures
        byte_at(pack_rgba(r, g, b, a), 16) == r,
        byte_at(pack_rgba(r, g, b, a), 8) == g,
        byte_at(pack_rgba(r, g, b, a), 0) == b,
        byte_at(pack_rgba(r, g, b, a), 24) == a,
{
    assert(((((a as u32) << 24u32) | ((r as u32) << 16u32) | ((g as u32) << 8u32) | (b as u32)) >> 16u32) & 0xff == r as u32) by (bit_vector);
    assert(((((a as u32) << 24u32) | ((r as u32) << 16u32) | ((g as u32) << 8u32) | (b as u32)) >> 8u32) & 0xff == g as u32) by (bit_vector);
    assert(((((a as u32) << 24u32) | ((r as u32) << 16u32) | ((g as u32) << 8u32) | (b as u32)) >> 0u32) & 0xff == b as u32) by (bit_vector);
    assert(((((a as u32) << 24u32) | ((r as u32) << 16u32) | ((g as u32) << 8u32) | (b as u32)) >> 24u32) & 0xff == a as u32) by (bit_vector);
}

} // verus!
