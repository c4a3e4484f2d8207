use rwal::colors::types::{ColorDict, Rgb, Special};
use rwal::export::sequences::build_sequences;

fn dummy_dict() -> ColorDict {
    ColorDict {
        wallpaper: "/tmp/wall.jpg".to_string(),
        alpha: 100,
        special: Special {
            background: Rgb::new(10, 10, 10),
            foreground: Rgb::new(240, 240, 240),
            cursor: Rgb::new(240, 240, 240),
        },
        colors: [Rgb::new(30, 30, 30); 16],
    }
}

#[test]
fn test_sequences_contain_all_16_color_slots() {
    let dict = dummy_dict();
    let seq = build_sequences(&dict);
    for i in 0..16 {
        assert!(seq.contains(&format!("\x1b]4;{};", i)), "missing OSC sequence for color{i}");
    }
}

#[test]
fn test_sequences_contain_foreground() {
    let dict = dummy_dict();
    let seq = build_sequences(&dict);
    assert!(seq.contains("\x1b]10;"));
}

#[test]
fn test_sequences_contain_background() {
    let dict = dummy_dict();
    let seq = build_sequences(&dict);
    assert!(seq.contains("\x1b]11;"));
}

#[test]
fn test_sequences_contain_cursor() {
    let dict = dummy_dict();
    let seq = build_sequences(&dict);
    assert!(seq.contains("\x1b]12;"));
}

#[test]
fn test_sequences_use_hex_colors() {
    let dict = dummy_dict();
    let seq = build_sequences(&dict);
    assert!(seq.contains('#'), "sequences should contain hex colors");
}

#[test]
fn test_sequences_use_bell_terminator() {
    let dict = dummy_dict();
    let seq = build_sequences(&dict);
    assert!(seq.contains('\x07'));
}

#[test]
fn test_sequences_color_values_match_dict() {
    let mut dict = dummy_dict();
    dict.colors[0] = Rgb::new(0xAB, 0xCD, 0xEF);
    let seq = build_sequences(&dict);
    assert!(seq.contains("#abcdef"));
}

#[test]
fn sequences_exact_text() {
    let mut dict = dummy_dict();
    dict.colors[15] = Rgb::new(1, 2, 3);
    let seq = build_sequences(&dict);
    let mut expected = String::new();
    for i in 0..16 {
        let hex = if i == 15 { "#010203" } else { "#1e1e1e" };
        expected.push_str(&format!("\x1b]4;{};{}\x07", i, hex));
    }
    expected.push_str("\x1b]10;#f0f0f0\x07\x1b]11;#0a0a0a\x07\x1b]12;#f0f0f0\x07");
    assert_eq!(seq, expected);
}
