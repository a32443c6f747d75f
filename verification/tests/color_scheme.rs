use lsc::colors::{Color, ColorScheme};
use lsc::listing::lsc_color_scheme;

#[test]
fn rgb_converts_to_itself() {
    assert_eq!(Color::RGB { r: 1, g: 2, b: 3 }.convert(), Some((1, 2, 3)));
}

#[test]
fn hex_converts_to_parts() {
    assert_eq!(Color::Hex("21a0BC".to_string()).convert(), Some((33, 160, 188)));
    assert_eq!(Color::Hex("ffffff".to_string()).convert(), Some((255, 255, 255)));
}

#[test]
fn hex_round_trip_of_formatted_color() {
    for (r, g, b) in [(0u8, 0u8, 0u8), (33, 158, 188), (255, 183, 3), (209, 73, 91)] {
        let hex = format!("{:02x}{:02x}{:02x}", r, g, b);
        assert_eq!(Color::Hex(hex).convert(), Some((r, g, b)));
    }
}

#[test]
fn upper_case_hex_round_trip() {
    for (r, g, b) in [(0u8, 0u8, 0u8), (171, 205, 239), (255, 183, 3)] {
        let hex = format!("{:02X}{:02X}{:02X}", r, g, b);
        assert_eq!(Color::Hex(hex).convert(), Color::RGB { r, g, b }.convert());
    }
}

#[test]
fn hex_with_plus_sign_reads_one_digit() {
    assert_eq!(Color::Hex("+f0a0b".to_string()).convert(), Some((15, 10, 11)));
    assert_eq!(Color::Hex("-f0a0b".to_string()).convert(), None);
}

#[test]
fn invalid_hex_gives_none() {
    assert_eq!(Color::Hex("zz0000".to_string()).convert(), None);
    assert_eq!(Color::Hex("12345".to_string()).convert(), None);
    assert_eq!(Color::Hex("1234567".to_string()).convert(), None);
    assert_eq!(Color::Hex("".to_string()).convert(), None);
    assert_eq!(Color::Hex("ééé".to_string()).convert(), None);
}

#[test]
fn add_rgb_then_lookup() {
    colored::control::set_override(false);
    let mut scheme = ColorScheme::new();
    scheme.add_rgb("dir".to_string(), 1, 2, 3);
    scheme.add_rgb("other".to_string(), 4, 5, 6);
    scheme.add_rgb("dir".to_string(), 7, 8, 9);
    assert_eq!(scheme.colors.len(), 2);
    match &scheme.colors[0].1 {
        Color::RGB { r, g, b } => assert_eq!((*r, *g, *b), (7, 8, 9)),
        Color::Hex(_) => panic!("expected an rgb color"),
    }
    assert_eq!(scheme.parse_text("dir".to_string(), "name"), "name");
}

#[test]
fn default_scheme_is_empty() {
    let scheme = ColorScheme::default();
    assert!(scheme.colors.is_empty());
}

#[test]
fn lsc_palette_holds_thirteen_colors() {
    let scheme = lsc_color_scheme();
    assert_eq!(scheme.colors.len(), 13);
    assert_eq!(scheme.colors[0].0, "dir");
    assert_eq!(scheme.colors[12].0, "file_num");
}
