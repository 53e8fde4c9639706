# text

Text attributes, font selection and shape-plan caching for a rich-text
editor, written in Verus.

- `src/attributes.rs`: text attributes and the list of attribute spans of a
  line (add, look up, split), over `rangemap::RangeMap`.
- `src/spans.rs`: the trusted model of the range map of attribute spans.
- `src/font_system.rs`: the font system: font loading and its cache, and
  font matching (filter, sort nearest weight first, cache) over `fontdb`.
- `src/shape_plan_cache.rs`: the cache of `rustybuzz` shape plans.
- `src/cursor.rs`: placing a cursor among the glyphs of a line, and
  counting the grapheme clusters before it, over `unicode-segmentation`.
- `src/color.rs`, `src/glyph_cache.rs`, `src/layouting.rs`,
  `src/paragraph.rs`: plain data types.
- `app/`: a console program that loads the system fonts, lays out one line
  and places its glyphs; the floating-point layout lives there.
