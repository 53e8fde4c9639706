use text::color::Color;

#[test]
fn rgba_packs_alpha_red_green_blue() {
    assert_eq!(Color::rgba(0x12, 0x34, 0x56, 0x78).0, 0x7812_3456);
    assert_eq!(Color::rgb(0xAB, 0xCD, 0xEF).0, 0xFFAB_CDEF);
}

#[test]
fn channels_round_trip() {
    let c = Color::rgba(10, 20, 30, 40);
    assert_eq!((c.r(), c.g(), c.b(), c.a()), (10, 20, 30, 40));
    let black = Color::rgba(0, 0, 0, 255);
    assert_eq!((black.r(), black.g(), black.b(), black.a()), (0, 0, 0, 255));
}
