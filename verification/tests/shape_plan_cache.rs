use text::shape_plan_cache::ShapePlanCache;
use text::font_system::FontSystem;

fn dejavu_font() -> std::sync::Arc<text::font_system::Font> {
    let mut files = fontdb::Database::new();
    files.load_font_file("/usr/share/fonts/truetype/dejavu/DejaVuSans.ttf").unwrap();
    let file_id = files.faces().next().unwrap().id;
    let bytes = files.with_face_data(file_id, |data, _| data.to_vec()).unwrap();
    let mut db = fontdb::Database::new();
    db.load_font_data(bytes);
    let id = db.faces().next().unwrap().id;
    let mut fs = FontSystem::new(None, db);
    fs.get_font(id).unwrap()
}

#[test]
fn plan_is_cached_per_direction() {
    let font = dejavu_font();
    let mut cache = ShapePlanCache::default();
    let mut buffer = rustybuzz::UnicodeBuffer::new();
    buffer.push_str("Hello");
    buffer.guess_segment_properties();
    assert_eq!(cache.len(), 0);
    assert!(cache.get_from_font_and_buffer_info(&font, &buffer).is_some());
    assert_eq!(cache.len(), 1);
    assert!(cache.get_from_font_and_buffer_info(&font, &buffer).is_some());
    assert_eq!(cache.len(), 1);
    buffer.set_direction(rustybuzz::Direction::RightToLeft);
    assert!(cache.get_from_font_and_buffer_info(&font, &buffer).is_some());
    assert_eq!(cache.len(), 2);
}

#[test]
fn plan_shapes_text() {
    let font = dejavu_font();
    let mut cache = ShapePlanCache::default();
    let mut buffer = rustybuzz::UnicodeBuffer::new();
    buffer.push_str("AB");
    buffer.guess_segment_properties();
    let plan = cache.get_from_font_and_buffer_info(&font, &buffer).unwrap();
    let face = rustybuzz::Face::from_slice(font.data(), font.face_index).unwrap();
    let glyphs = rustybuzz::shape_with_plan(&face, plan, buffer);
    assert_eq!(glyphs.len(), 2);
}

#[test]
fn invalid_direction_gives_no_plan() {
    let font = dejavu_font();
    let mut cache = ShapePlanCache::default();
    let mut buffer = rustybuzz::UnicodeBuffer::new();
    buffer.push_str("Hello");
    assert!(cache.get_from_font_and_buffer_info(&font, &buffer).is_none());
    assert_eq!(cache.len(), 0);
}

#[test]
fn buffers_with_equal_properties_share_a_plan() {
    let font = dejavu_font();
    let mut cache = ShapePlanCache::default();
    let mut first = rustybuzz::UnicodeBuffer::new();
    first.push_str("Hello");
    first.guess_segment_properties();
    let mut second = rustybuzz::UnicodeBuffer::new();
    second.push_str("world, again");
    second.guess_segment_properties();
    assert!(cache.get_from_font_and_buffer_info(&font, &first).is_some());
    assert!(cache.get_from_font_and_buffer_info(&font, &second).is_some());
    assert_eq!(cache.len(), 1);
    let mut greek = rustybuzz::UnicodeBuffer::new();
    greek.push_str("αβγ");
    greek.guess_segment_properties();
    assert!(cache.get_from_font_and_buffer_info(&font, &greek).is_some());
    assert_eq!(cache.len(), 2);
}
