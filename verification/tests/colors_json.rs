use rwal::colors::types::{ColorDict, Rgb, Special};
use rwal::error::RwalError;
use rwal::export::colors_json::{color_entries, parse_color_dict};

fn dummy_dict() -> ColorDict {
    let mut colors = [Rgb::new(0, 0, 0); 16];
    colors[0] = Rgb::new(10, 10, 10);
    colors[7] = Rgb::new(180, 180, 180);
    colors[15] = Rgb::new(240, 240, 240);

    ColorDict {
        wallpaper: "/home/user/wall.jpg".to_string(),
        alpha: 100,
        special: Special {
            background: Rgb::new(10, 10, 10),
            foreground: Rgb::new(240, 240, 240),
            cursor: Rgb::new(240, 240, 240),
        },
        colors,
    }
}

/// Write the dict as colors.json text and read it back, the JSON text going
/// through serde_json.
fn roundtrip(dict: &ColorDict) -> Result<ColorDict, RwalError> {
    let mut colors = serde_json::Map::new();
    for (k, v) in color_entries(dict) {
        colors.insert(k, serde_json::Value::String(v));
    }
    let mut special = serde_json::Map::new();
    special.insert("background".into(), serde_json::Value::String(dict.special.background.to_hex()));
    special.insert("foreground".into(), serde_json::Value::String(dict.special.foreground.to_hex()));
    special.insert("cursor".into(), serde_json::Value::String(dict.special.cursor.to_hex()));
    let mut file = serde_json::Map::new();
    file.insert("wallpaper".into(), serde_json::Value::String(dict.wallpaper.clone()));
    file.insert("alpha".into(), serde_json::Value::from(dict.alpha));
    file.insert("special".into(), serde_json::Value::Object(special));
    file.insert("colors".into(), serde_json::Value::Object(colors));
    let text = serde_json::to_string_pretty(&serde_json::Value::Object(file)).unwrap();

    let parsed: serde_json::Value = serde_json::from_str(&text).unwrap();
    let entries: Vec<(String, String)> = parsed["colors"]
        .as_object()
        .unwrap()
        .iter()
        .map(|(k, v)| (k.clone(), v.as_str().unwrap().to_string()))
        .collect();
    parse_color_dict(
        parsed["wallpaper"].as_str().unwrap().to_string(),
        parsed["alpha"].as_u64().unwrap() as u8,
        parsed["special"]["background"].as_str().unwrap(),
        parsed["special"]["foreground"].as_str().unwrap(),
        parsed["special"]["cursor"].as_str().unwrap(),
        &entries,
        RwalError::CacheCorrupted("colors.json".to_string()),
    )
}

#[test]
fn test_read_roundtrip_matches_written_dict() {
    let dict = dummy_dict();
    let loaded = roundtrip(&dict).unwrap();
    assert_eq!(loaded.wallpaper, dict.wallpaper);
    assert_eq!(loaded.alpha, dict.alpha);
    assert_eq!(loaded.special.background, dict.special.background);
    assert_eq!(loaded.special.foreground, dict.special.foreground);
    assert_eq!(loaded.special.cursor, dict.special.cursor);
    assert_eq!(loaded.colors, dict.colors);
}

#[test]
fn test_read_all_16_colors_correct() {
    let mut dict = dummy_dict();
    for i in 0..16 {
        dict.colors[i] = Rgb::new(i as u8 * 15, i as u8 * 10, i as u8 * 5);
    }
    let loaded = roundtrip(&dict).unwrap();
    for i in 0..16 {
        assert_eq!(loaded.colors[i], dict.colors[i], "color{i} mismatch after roundtrip");
    }
}

#[test]
fn color_entries_are_keyed_by_slot() {
    let entries = color_entries(&dummy_dict());
    assert_eq!(entries.len(), 16);
    assert_eq!(entries[0], ("color0".to_string(), "#0a0a0a".to_string()));
    assert_eq!(entries[15], ("color15".to_string(), "#f0f0f0".to_string()));
    for (i, (k, v)) in entries.iter().enumerate() {
        assert_eq!(k, &format!("color{i}"));
        assert!(v.starts_with('#'));
        assert_eq!(v.len(), 7);
    }
}

#[test]
fn parse_rejects_missing_or_bad_values() {
    let corrupt = RwalError::CacheCorrupted("c".to_string());
    let mut entries = color_entries(&dummy_dict());
    entries.remove(3);
    let r = parse_color_dict(String::new(), 1, "#000000", "#000000", "#000000", &entries, corrupt.clone());
    assert_eq!(r, Err(corrupt.clone()));
    let entries = color_entries(&dummy_dict());
    let r = parse_color_dict(String::new(), 1, "#000000", "#00000", "#000000", &entries, corrupt.clone());
    assert_eq!(r, Err(corrupt));
}

#[test]
fn parse_takes_the_first_of_repeated_keys() {
    let mut entries = vec![("color4".to_string(), "#010101".to_string())];
    entries.extend(color_entries(&dummy_dict()));
    let d = parse_color_dict(String::new(), 1, "#000000", "#000000", "#000000", &entries, RwalError::HomeDirNotFound).unwrap();
    assert_eq!(d.colors[4], Rgb::new(1, 1, 1));
}
