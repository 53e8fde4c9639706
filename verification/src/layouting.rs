use vstd::prelude::*;

use crate::glyph_cache::GlyphCacheKey;

verus! {

/// A glyph placed on the pixel grid.
#[derive(Clone, Debug)]
pub struct PhysicallyLayoutedGlyph {
    /// Cache key, see [GlyphCacheKey].
    pub cache_key: GlyphCacheKey,
    /// Integer component of the horizontal offset in the line.
    pub x_offset: i32,
    /// Integer component of the vertical offset in the line.
    pub y_offset: i32,
}

} // verus!
