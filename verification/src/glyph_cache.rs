use vstd::prelude::*;

verus! {

/// Flags that alter how a glyph is rasterized.
#[derive(Clone, Copy, Debug, PartialEq, Eq, Hash, Structural)]
pub struct CacheKeyFlags(pub u32);

impl CacheKeyFlags {
    /// The set of no flags.
    pub fn empty() -> (f: Self)
        ensures
            f.0 == 0,
    {
        CacheKeyFlags(0)
    }
}

/// The quarter of a pixel that a glyph position falls in.
#[derive(Clone, Copy, Debug, PartialEq, Eq, Hash, Structural)]
pub enum SubpixelBin {
    Zero,
    One,
    Two,
    Three,
}

/// Key for the rasterization cache of a glyph.
#[derive(Clone, Copy, Debug, PartialEq, Eq, Hash)]
pub struct GlyphCacheKey {
    /// Font id of the glyph.
    pub font_id: fontdb::ID,
    /// Glyph id in the font.
    pub glyph_id: u16,
    /// The bits of the font size in pixels.
    pub font_size_bits: u32,
    /// Horizontal subpixel bin.
    pub x_bin: SubpixelBin,
    /// Vertical subpixel bin.
    pub y_bin: SubpixelBin,
    /// The flags needed for altering the rendering.
    pub flags: CacheKeyFlags,
}

} // verus!
