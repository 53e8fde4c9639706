use std::sync::Arc;

use text::attributes::{Attributes, Family, Stretch, Style, Weight};
use text::font_system::{collect_unicode_codepoints, CmapSubtable, Font, FontMatchAttributes, FontSystem};

fn face_info(name: &str, style: fontdb::Style, weight: u16, stretch: fontdb::Stretch) -> fontdb::FaceInfo {
    fontdb::FaceInfo {
        id: fontdb::ID::dummy(),
        source: fontdb::Source::Binary(Arc::new(Vec::<u8>::new())),
        index: 0,
        families: vec![(name.to_string(), fontdb::Language::English_UnitedStates)],
        post_script_name: name.to_string(),
        style,
        weight: fontdb::Weight(weight),
        stretch,
        monospaced: false,
    }
}

fn database() -> fontdb::Database {
    let mut db = fontdb::Database::new();
    db.push_face_info(face_info("Serif-Bold", fontdb::Style::Normal, 700, fontdb::Stretch::Normal));
    db.push_face_info(face_info("Serif-Regular", fontdb::Style::Normal, 400, fontdb::Stretch::Normal));
    db.push_face_info(face_info("Serif-Italic", fontdb::Style::Italic, 400, fontdb::Stretch::Normal));
    db.push_face_info(face_info("Serif-Light", fontdb::Style::Normal, 300, fontdb::Stretch::Normal));
    db.push_face_info(face_info("Serif-Condensed", fontdb::Style::Normal, 400, fontdb::Stretch::Condensed));
    db.push_face_info(face_info("NotoColorEmoji", fontdb::Style::Italic, 500, fontdb::Stretch::Expanded));
    db
}

fn id_of(db: &fontdb::Database, name: &str) -> fontdb::ID {
    db.faces().find(|face| face.post_script_name == name).unwrap().id
}

#[test]
fn locale_falls_back_to_en_us() {
    let fs = FontSystem::new(None, fontdb::Database::new());
    assert_eq!(fs.locale, "en-US");
    let fs = FontSystem::new(Some("it-IT".to_string()), fontdb::Database::new());
    assert_eq!(fs.locale, "it-IT");
}

#[test]
fn new_sets_the_cmu_families_and_keeps_the_faces() {
    let fs = FontSystem::new(None, database());
    assert_eq!(fs.database.len(), 6);
    assert_eq!(fs.database.family_name(&fontdb::Family::Serif), "CMU Serif");
    assert_eq!(fs.database.family_name(&fontdb::Family::SansSerif), "CMU Sans Serif");
    assert_eq!(fs.database.family_name(&fontdb::Family::Monospace), "CMU Typewriter Text");
    assert_eq!(fs.database.family_name(&fontdb::Family::Cursive), "Comic Sans MS");
    assert!(fs.font_cache.is_empty());
    assert!(fs.font_matches_cache.is_empty());
}

#[test]
fn matches_are_sorted_nearest_weight_first() {
    let db = database();
    let regular = id_of(&db, "Serif-Regular");
    let condensed_excluded = id_of(&db, "Serif-Condensed");
    let light = id_of(&db, "Serif-Light");
    let emoji = id_of(&db, "NotoColorEmoji");
    let bold = id_of(&db, "Serif-Bold");
    let mut fs = FontSystem::new(None, db);
    let matches = fs.get_font_matches(Attributes::new());
    let ids: Vec<fontdb::ID> = matches.iter().map(|key| key.id).collect();
    assert_eq!(ids, vec![regular, light, emoji, bold]);
    assert!(!ids.contains(&condensed_excluded));
    let differences: Vec<u16> = matches.iter().map(|key| key.font_weight_difference).collect();
    assert_eq!(differences, vec![0, 100, 100, 300]);
    let weights: Vec<u16> = matches.iter().map(|key| key.font_weight).collect();
    assert_eq!(weights, vec![400, 300, 500, 700]);
}

#[test]
fn equal_weight_difference_is_ordered_by_weight() {
    let mut fs = FontSystem::new(None, database());
    let mut attributes = Attributes::new();
    attributes.weight = Weight(500);
    let matches = fs.get_font_matches(attributes);
    let weights: Vec<u16> = matches.iter().map(|key| key.font_weight).collect();
    assert_eq!(weights, vec![500, 400, 300, 700]);
}

#[test]
fn italic_attributes_match_italic_faces() {
    let db = database();
    let italic = id_of(&db, "Serif-Italic");
    let emoji = id_of(&db, "NotoColorEmoji");
    let mut fs = FontSystem::new(None, db);
    let matches = fs.get_font_matches(Attributes::new().italic());
    let ids: Vec<fontdb::ID> = matches.iter().map(|key| key.id).collect();
    assert_eq!(ids, vec![italic, emoji]);
}

#[test]
fn same_weight_faces_are_ordered_by_id() {
    let mut db = fontdb::Database::new();
    db.push_face_info(face_info("A", fontdb::Style::Normal, 400, fontdb::Stretch::Normal));
    db.push_face_info(face_info("B", fontdb::Style::Normal, 400, fontdb::Stretch::Normal));
    db.push_face_info(face_info("C", fontdb::Style::Normal, 400, fontdb::Stretch::Normal));
    let mut expected: Vec<fontdb::ID> = db.faces().map(|face| face.id).collect();
    expected.sort();
    let mut fs = FontSystem::new(None, db);
    let matches = fs.get_font_matches(Attributes::new());
    let ids: Vec<fontdb::ID> = matches.iter().map(|key| key.id).collect();
    assert_eq!(ids, expected);
}

#[test]
fn font_matches_are_cached() {
    let mut fs = FontSystem::new(None, database());
    let first = fs.get_font_matches(Attributes::new());
    assert_eq!(fs.font_matches_cache.len(), 1);
    let mut recolored = Attributes::new();
    recolored.color = Some(text::color::Color::rgb(1, 2, 3));
    let second = fs.get_font_matches(recolored);
    assert!(Arc::ptr_eq(&first, &second));
    assert_eq!(fs.font_matches_cache.len(), 1);
    let third = fs.get_font_matches(Attributes::new().bold());
    assert!(!Arc::ptr_eq(&first, &third));
    assert_eq!(fs.font_matches_cache.len(), 2);
}

#[test]
fn font_match_cache_is_cleared_at_its_limit() {
    let mut fs = FontSystem::new(None, database());
    for weight in 0..1024u16 {
        let mut attributes = Attributes::new();
        attributes.weight = Weight(weight);
        fs.get_font_matches(attributes);
    }
    assert_eq!(fs.font_matches_cache.len(), 1024);
    let mut attributes = Attributes::new();
    attributes.weight = Weight(2000);
    fs.get_font_matches(attributes);
    assert_eq!(fs.font_matches_cache.len(), 1);
}

#[test]
fn font_match_attributes_from_attributes() {
    let mut attributes = Attributes::new().italic().bold();
    attributes.family = Family::Name("CMU Serif");
    attributes.stretch = Stretch::Expanded;
    let key = FontMatchAttributes::from(attributes);
    assert!(key.family == Family::Name("CMU Serif"));
    assert!(key.stretch == Stretch::Expanded);
    assert!(key.style == Style::Italic);
    assert!(key.weight == Weight(500));
}

#[test]
fn missing_face_gives_no_font_and_is_cached() {
    let mut fs = FontSystem::new(None, fontdb::Database::new());
    assert!(fs.font_cache.is_empty());
    assert!(fs.get_font(fontdb::ID::dummy()).is_none());
    assert_eq!(fs.font_cache.len(), 1);
    assert!(fs.get_font(fontdb::ID::dummy()).is_none());
    assert_eq!(fs.font_cache.len(), 1);
}

#[test]
fn unparsable_face_gives_no_font() {
    let db = database();
    let regular = id_of(&db, "Serif-Regular");
    assert!(Font::new(&db, regular).is_none());
    let mut fs = FontSystem::new(None, db);
    assert!(fs.get_font(regular).is_none());
    assert_eq!(fs.font_cache.len(), 1);
}

fn dejavu_bytes() -> Vec<u8> {
    let mut files = fontdb::Database::new();
    files.load_font_file("/usr/share/fonts/truetype/dejavu/DejaVuSans.ttf").unwrap();
    let id = files.faces().next().unwrap().id;
    files.with_face_data(id, |data, _| data.to_vec()).unwrap()
}

fn dejavu_system() -> (FontSystem, fontdb::ID) {
    let bytes = dejavu_bytes();
    let mut db = fontdb::Database::new();
    db.load_font_data(bytes);
    let id = db.faces().next().unwrap().id;
    (FontSystem::new(None, db), id)
}

#[test]
fn loaded_font_is_cached_and_shared() {
    let (mut fs, id) = dejavu_system();
    let font = fs.get_font(id).unwrap();
    assert!(font.id == id);
    assert_eq!(font.face_index, 0);
    assert!(font.unicode_codepoints.contains(&('A' as u32)));
    assert!(!font.data().is_empty());
    let again = fs.get_font(id).unwrap();
    assert!(Arc::ptr_eq(&font, &again));
    assert_eq!(fs.font_cache.len(), 1);
    let reference = font.as_font_reference();
    assert_eq!(reference.offset, font.swash_cache_key.0);
}

#[test]
fn binary_font_loads_directly() {
    let mut db = fontdb::Database::new();
    db.load_font_data(dejavu_bytes());
    let id = db.faces().next().unwrap().id;
    let font = Font::new(&db, id).unwrap();
    assert!(font.unicode_codepoints.contains(&0x20));
}

#[test]
fn file_source_is_not_loaded() {
    let mut db = fontdb::Database::new();
    db.load_font_file("/usr/share/fonts/truetype/dejavu/DejaVuSans.ttf").unwrap();
    let id = db.faces().next().unwrap().id;
    assert!(Font::new(&db, id).is_none());
    let mut fs = FontSystem::new(None, db);
    assert!(fs.get_font(id).is_none());
    assert_eq!(fs.font_cache.len(), 1);
}

#[test]
fn collects_mapped_codepoints_of_unicode_subtables() {
    let subtables = vec![
        CmapSubtable { is_unicode: true, codepoints: vec![(0x41, true), (0x42, false), (0x43, true)] },
        CmapSubtable { is_unicode: false, codepoints: vec![(0x44, true)] },
        CmapSubtable { is_unicode: true, codepoints: vec![(0x41, true), (0x45, true)] },
    ];
    assert_eq!(collect_unicode_codepoints(&subtables), vec![0x41, 0x43, 0x41, 0x45]);
    assert_eq!(collect_unicode_codepoints(&Vec::new()), Vec::<u32>::new());
}

#[test]
fn code_points_are_those_the_font_maps() {
    let mut db = fontdb::Database::new();
    db.load_font_data(dejavu_bytes());
    let id = db.faces().next().unwrap().id;
    let font = Font::new(&db, id).unwrap();
    assert!(font.unicode_codepoints.contains(&('é' as u32)));
    assert!(!font.unicode_codepoints.contains(&0x4E00));
    assert!(!font.unicode_codepoints.contains(&0x10FFFD));
    assert_eq!(font.swash_cache_key.0, 0);
}
