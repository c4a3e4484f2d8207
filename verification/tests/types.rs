use rwal::colors::types::{ColorDict, Rgb, Special};

// --- Rgb::from_hex ---

#[test]
fn test_from_hex_with_hash() {
    let c = Rgb::from_hex("#1a2b3c").unwrap();
    assert_eq!(c.r, 0x1a);
    assert_eq!(c.g, 0x2b);
    assert_eq!(c.b, 0x3c);
}

#[test]
fn test_from_hex_without_hash() {
    let c = Rgb::from_hex("ff0000").unwrap();
    assert_eq!(c.r, 255);
    assert_eq!(c.g, 0);
    assert_eq!(c.b, 0);
}

#[test]
fn test_from_hex_black() {
    let c = Rgb::from_hex("#000000").unwrap();
    assert_eq!(c, Rgb::new(0, 0, 0));
}

#[test]
fn test_from_hex_white() {
    let c = Rgb::from_hex("#ffffff").unwrap();
    assert_eq!(c, Rgb::new(255, 255, 255));
}

#[test]
fn test_from_hex_invalid_length() {
    assert!(Rgb::from_hex("#fff").is_none());
    assert!(Rgb::from_hex("12345").is_none());
    assert!(Rgb::from_hex("1234567").is_none());
}

#[test]
fn test_from_hex_invalid_chars() {
    assert!(Rgb::from_hex("#gggggg").is_none());
}

#[test]
fn from_hex_strips_every_leading_hash_and_accepts_uppercase() {
    assert_eq!(Rgb::from_hex("##AbCdEf"), Some(Rgb::new(0xab, 0xcd, 0xef)));
}

#[test]
fn from_hex_rejects_a_sign_in_a_field() {
    assert_eq!(Rgb::from_hex("+f0000"), None);
    assert_eq!(Rgb::from_hex("+1+2+3"), None);
    assert_eq!(Rgb::from_hex("#0f-100"), None);
}

#[test]
fn from_hex_non_ascii_six_bytes_is_none() {
    // "é" is two bytes: three of them make six bytes and cut on boundaries
    assert!(Rgb::from_hex("ééé").is_none());
}

// --- Rgb::to_hex ---

#[test]
fn test_to_hex_roundtrip() {
    let original = "#1a2b3c";
    let c = Rgb::from_hex(original).unwrap();
    assert_eq!(c.to_hex(), original);
}

#[test]
fn test_to_hex_black() {
    assert_eq!(Rgb::new(0, 0, 0).to_hex(), "#000000");
}

#[test]
fn test_to_hex_white() {
    assert_eq!(Rgb::new(255, 255, 255).to_hex(), "#ffffff");
}

#[test]
fn test_to_hex_lowercase() {
    assert_eq!(Rgb::new(0xAB, 0xCD, 0xEF).to_hex(), "#abcdef");
}

#[test]
fn hex_roundtrip_for_every_grey() {
    for v in 0..=255u8 {
        let c = Rgb::new(v, 255 - v, v / 2);
        assert_eq!(Rgb::from_hex(&c.to_hex()), Some(c));
    }
}

// --- luma and saturation ---

#[test]
fn luma_weights() {
    assert_eq!(Rgb::new(255, 255, 255).luma(), 255000);
    assert_eq!(Rgb::new(1, 0, 0).luma(), 299);
    assert!(Rgb::new(0, 255, 0).luma() > Rgb::new(255, 0, 0).luma());
}

#[test]
fn saturation_fractions() {
    assert_eq!(Rgb::new(128, 128, 128).saturation(), (0, 1));
    // max 200, min 100: sum 300 > 255, so 100 / (510 - 300)
    assert_eq!(Rgb::new(200, 100, 150).saturation(), (100, 210));
    // max 100, min 20: 80 / 120
    assert_eq!(Rgb::new(20, 100, 60).saturation(), (80, 120));
}

// --- ColorDict::color() accessor ---

#[test]
fn test_color_accessor_returns_correct_slot() {
    let mut colors = [Rgb::new(0, 0, 0); 16];
    colors[7] = Rgb::new(1, 2, 3);

    let dict = ColorDict {
        wallpaper: "/tmp/wall.jpg".to_string(),
        alpha: 100,
        special: Special {
            background: Rgb::new(0, 0, 0),
            foreground: Rgb::new(255, 255, 255),
            cursor: Rgb::new(255, 255, 255),
        },
        colors,
    };

    assert_eq!(dict.color(7), &Rgb::new(1, 2, 3));
    assert_eq!(dict.color(0), &Rgb::new(0, 0, 0));
}
