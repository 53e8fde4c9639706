//! Text attributes, font selection and glyph caching primitives for a
//! rich-text editor, with their behaviour stated and proved in Verus.

pub mod attributes;
pub mod color;
pub mod cursor;
pub mod font_system;
pub mod glyph_cache;
pub mod layouting;
pub mod paragraph;
pub mod shape_plan_cache;
pub mod spans;
pub mod strings;
