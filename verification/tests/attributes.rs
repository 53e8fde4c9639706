use text::attributes::{Attributes, AttributesList, Family, Stretch, Style, Weight};
use text::color::Color;
use text::font_system::{FaceRecord, SourceKind};
use text::glyph_cache::CacheKeyFlags;

fn face(name: &str, style: Style, stretch: Stretch) -> FaceRecord {
    FaceRecord {
        id: fontdb::ID::dummy(),
        id_bits: u64::MAX,
        post_script_name: name.to_string(),
        style,
        weight: Weight(Weight::NORMAL),
        stretch,
        index: 0,
        source_kind: SourceKind::Binary,
    }
}

#[test]
fn new_attributes_are_regular_serif() {
    let a = Attributes::new();
    assert!(a.color.is_none());
    assert!(a.family == Family::Serif);
    assert!(a.stretch == Stretch::Normal);
    assert!(a.style == Style::Normal);
    assert!(a.weight == Weight(400));
    assert!(a.cache_key_flags == CacheKeyFlags(0));
}

#[test]
fn italic_changes_only_the_style() {
    let mut a = Attributes::new();
    a.color = Some(Color::rgba(1, 2, 3, 4));
    let i = a.italic();
    assert!(i.style == Style::Italic);
    assert!(i.weight == a.weight);
    assert!(i.family == a.family);
    assert!(i.color == a.color);
    assert!(a.style == Style::Normal);
}

#[test]
fn bold_sets_medium_weight() {
    let a = Attributes::new();
    let b = a.bold();
    assert_eq!(b.weight, Weight(500));
    assert!(b.style == a.style);
    assert!(b.italic().weight == Weight(500));
}

#[test]
fn compatible_ignores_color_and_flags() {
    let a = Attributes::new();
    let mut b = Attributes::new();
    b.color = Some(Color::rgb(255, 0, 0));
    b.cache_key_flags = CacheKeyFlags(1);
    assert!(a.is_compatible_with(&b));
    assert!(a != b);
    assert!(!a.is_compatible_with(&a.bold()));
    assert!(!a.is_compatible_with(&a.italic()));
    let mut c = a;
    c.family = Family::Monospace;
    assert!(!a.is_compatible_with(&c));
}

#[test]
fn family_names_compare_by_characters() {
    let owned = String::from("CMU Serif");
    let leaked: &'static str = Box::leak(owned.into_boxed_str());
    assert!(Family::Name("CMU Serif") == Family::Name(leaked));
    assert!(Family::Name("CMU Serif") != Family::Name("CMU Sans Serif"));
    assert!(Family::Name("Serif") != Family::Serif);
    let mut a = Attributes::new();
    let mut b = Attributes::new();
    a.family = Family::Name("CMU Serif");
    b.family = Family::Name(leaked);
    assert!(a == b);
    assert!(a.is_compatible_with(&b));
}

#[test]
fn matches_same_style_and_stretch() {
    let a = Attributes::new();
    assert!(a.matches(&face("DejaVuSerif", Style::Normal, Stretch::Normal)));
    assert!(!a.matches(&face("DejaVuSerif-Italic", Style::Italic, Stretch::Normal)));
    assert!(!a.matches(&face("DejaVuSerifCondensed", Style::Normal, Stretch::Condensed)));
    assert!(a.italic().matches(&face("DejaVuSerif-Italic", Style::Italic, Stretch::Normal)));
}

#[test]
fn matches_any_emoji_face() {
    let a = Attributes::new();
    assert!(a.matches(&face("NotoColorEmoji", Style::Italic, Stretch::UltraExpanded)));
    assert!(!a.matches(&face("NotoColoremoji", Style::Italic, Stretch::UltraExpanded)));
}

fn list_with_spans() -> (AttributesList, Attributes, Attributes, Attributes) {
    let base = Attributes::new();
    let italic = base.italic();
    let bold = base.bold();
    let mut list = AttributesList::new(base);
    list.add_span(2..5, italic);
    list.add_span(7..10, bold);
    (list, base, italic, bold)
}

#[test]
fn get_span_falls_back_to_default() {
    let (list, base, italic, bold) = list_with_spans();
    assert!(*list.get_span(0) == base);
    assert!(*list.get_span(2) == italic);
    assert!(*list.get_span(4) == italic);
    assert!(*list.get_span(5) == base);
    assert!(*list.get_span(7) == bold);
    assert!(*list.get_span(9) == bold);
    assert!(*list.get_span(10) == base);
    assert!(*list.get_span(usize::MAX) == base);
}

#[test]
fn add_span_with_empty_range_does_nothing() {
    let (mut list, base, italic, _) = list_with_spans();
    list.add_span(3..3, base.bold());
    assert!(*list.get_span(3) == italic);
    assert_eq!(list.spans.iter().count(), 2);
}

#[test]
fn add_span_overwrites_overlapping_parts() {
    let (mut list, base, italic, bold) = list_with_spans();
    let mono = Attributes { family: Family::Monospace, ..base };
    list.add_span(4..8, mono);
    assert!(*list.get_span(3) == italic);
    assert!(*list.get_span(4) == mono);
    assert!(*list.get_span(5) == mono);
    assert!(*list.get_span(7) == mono);
    assert!(*list.get_span(8) == bold);
    assert!(*list.get_span(10) == base);
}

#[test]
fn split_off_inside_a_span() {
    let (mut list, base, italic, bold) = list_with_spans();
    let right = list.split_off(3).unwrap();
    assert!(right.default_attributes == base);
    assert!(*list.get_span(2) == italic);
    assert!(*list.get_span(3) == base);
    assert!(*list.get_span(8) == base);
    assert!(*right.get_span(0) == italic);
    assert!(*right.get_span(1) == italic);
    assert!(*right.get_span(2) == base);
    assert!(*right.get_span(4) == bold);
    assert!(*right.get_span(6) == bold);
    assert!(*right.get_span(7) == base);
}

#[test]
fn split_off_between_spans() {
    let (mut list, base, italic, bold) = list_with_spans();
    let right = list.split_off(6).unwrap();
    assert!(*list.get_span(4) == italic);
    assert!(*list.get_span(7) == base);
    assert!(*right.get_span(0) == base);
    assert!(*right.get_span(1) == bold);
    assert!(*right.get_span(3) == bold);
    assert!(*right.get_span(4) == base);
    assert_eq!(right.spans.iter().count(), 1);
    assert_eq!(list.spans.iter().count(), 1);
}

#[test]
fn split_off_at_zero_moves_everything() {
    let (mut list, base, italic, bold) = list_with_spans();
    let right = list.split_off(0).unwrap();
    assert_eq!(list.spans.iter().count(), 0);
    assert!(*list.get_span(3) == base);
    assert!(*right.get_span(2) == italic);
    assert!(*right.get_span(8) == bold);
}

#[test]
fn split_off_past_the_end_moves_nothing() {
    let (mut list, _, italic, bold) = list_with_spans();
    let right = list.split_off(10).unwrap();
    assert_eq!(right.spans.iter().count(), 0);
    assert!(*list.get_span(3) == italic);
    assert!(*list.get_span(9) == bold);
}

#[test]
fn split_off_keeps_every_position() {
    let (list, _, _, _) = list_with_spans();
    for index in 0..12 {
        let mut left = list.clone();
        let right = left.split_off(index).unwrap();
        for k in 0..14usize {
            let expected = *list.get_span(k);
            let got = if k < index { *left.get_span(k) } else { *right.get_span(k - index) };
            assert!(expected == got);
        }
    }
}

#[test]
fn split_off_at_zero_moves_the_spans_unshifted() {
    let (mut list, _, _, _) = list_with_spans();
    let before: Vec<(std::ops::Range<usize>, Attributes)> = list.spans.iter().map(|(r, v)| (r.clone(), *v)).collect();
    let right = list.split_off(0).unwrap();
    let after: Vec<(std::ops::Range<usize>, Attributes)> = right.spans.iter().map(|(r, v)| (r.clone(), *v)).collect();
    assert!(before == after);
}

#[test]
fn split_then_rejoin_restores_the_list() {
    let (list, _, _, _) = list_with_spans();
    for index in 0..12 {
        let mut left = list.clone();
        let right = left.split_off(index).unwrap();
        for (range, value) in right.spans.iter() {
            left.add_span(range.start + index..range.end + index, *value);
        }
        assert!(left == list);
    }
}
