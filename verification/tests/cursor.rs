use text::cursor::graphemes_before_cursor;

#[test]
fn counts_graphemes_before_the_cursor() {
    let text = "ae\u{301}x";
    assert_eq!(graphemes_before_cursor(text, 0, 0), (0, 3));
    assert_eq!(graphemes_before_cursor(text, 0, 1), (1, 3));
    assert_eq!(graphemes_before_cursor(text, 0, 2), (2, 3));
    assert_eq!(graphemes_before_cursor(text, 0, 4), (2, 3));
    assert_eq!(graphemes_before_cursor(text, 0, 5), (3, 3));
}

#[test]
fn cluster_start_shifts_the_offsets() {
    let text = "ab";
    assert_eq!(graphemes_before_cursor(text, 10, 11), (1, 2));
    assert_eq!(graphemes_before_cursor(text, 10, 5), (0, 2));
    assert_eq!(graphemes_before_cursor("", 0, 3), (0, 0));
}

use text::cursor::{place_cursor, CursorPlacement};

#[test]
fn cursor_at_a_glyph_start() {
    let glyphs = vec![(0, 2), (2, 5), (5, 6)];
    assert_eq!(place_cursor(&glyphs, 0), Some(CursorPlacement::GlyphStart(0)));
    assert_eq!(place_cursor(&glyphs, 2), Some(CursorPlacement::GlyphStart(1)));
    assert_eq!(place_cursor(&glyphs, 5), Some(CursorPlacement::GlyphStart(2)));
}

#[test]
fn cursor_inside_a_glyph() {
    let glyphs = vec![(0, 2), (2, 5), (5, 6)];
    assert_eq!(place_cursor(&glyphs, 1), Some(CursorPlacement::InsideGlyph(0)));
    assert_eq!(place_cursor(&glyphs, 4), Some(CursorPlacement::InsideGlyph(1)));
}

#[test]
fn cursor_at_the_line_end() {
    let glyphs = vec![(0, 2), (2, 5), (5, 6)];
    assert_eq!(place_cursor(&glyphs, 6), Some(CursorPlacement::LineEnd(3)));
    assert_eq!(place_cursor(&Vec::new(), 7), Some(CursorPlacement::LineEnd(0)));
}

#[test]
fn cursor_past_the_line_is_nowhere() {
    let glyphs = vec![(0, 2), (2, 5), (5, 6)];
    assert_eq!(place_cursor(&glyphs, 9), None);
}

#[test]
fn first_matching_glyph_wins() {
    // Right-to-left runs can give clusters out of order; the first glyph that
    // holds the cursor is the one reported.
    let glyphs = vec![(3, 6), (0, 3), (3, 6)];
    assert_eq!(place_cursor(&glyphs, 4), Some(CursorPlacement::InsideGlyph(0)));
    assert_eq!(place_cursor(&glyphs, 0), Some(CursorPlacement::GlyphStart(1)));
}

#[test]
fn every_nonempty_cluster_has_a_grapheme_at_its_start() {
    assert_eq!(graphemes_before_cursor("e\u{301}", 4, 5), (1, 1));
    assert_eq!(graphemes_before_cursor("e\u{301}", 4, 4), (0, 1));
    assert_eq!(graphemes_before_cursor("\r\n", 0, 1), (1, 1));
}
