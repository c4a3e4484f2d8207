use rwal::colors::types::Rgb;
use rwal::palette_generator::{generate_palette, to_hex};

#[test]
fn palette_from_first_four_colors() {
    let p = generate_palette(vec![
        Rgb::new(1, 2, 3),
        Rgb::new(0xff, 0xee, 0xdd),
        Rgb::new(0x10, 0x20, 0x30),
        Rgb::new(0, 0, 0),
        Rgb::new(9, 9, 9),
    ]);
    assert_eq!(p.background, "#010203");
    assert_eq!(p.foreground, "#ffeedd");
    assert_eq!(p.accent, "#102030");
    assert_eq!(p.secondary, "#000000");
}

#[test]
fn palette_fallback_with_too_few_colors() {
    let p = generate_palette(vec![Rgb::new(1, 2, 3); 3]);
    assert_eq!(p.background, "#000000");
    assert_eq!(p.foreground, "#ffffff");
    assert_eq!(p.accent, "#ff0000");
    assert_eq!(p.secondary, "#00ff00");
}

#[test]
fn to_hex_formats_lowercase() {
    assert_eq!(to_hex(Rgb::new(0xAB, 0x01, 0xF0)), "#ab01f0");
}
