use rwal::colors::types::Rgb;
use rwal::error::RwalError;
use rwal::export::theme::{bundled_theme_key, list_all, load, parse_theme, theme_name, user_theme_path, ThemeFile, ThemeFound};
use rwal::paths::Paths;
use rwal::theme_loader::{colorscheme_keys, colorscheme_paths, first_place, load_theme, SchemePlace};

fn theme_file() -> ThemeFile {
    let colors = (0..16).map(|i| (format!("color{i}"), format!("#{:02x}0000", i * 10))).collect();
    ThemeFile {
        wallpaper: "/w.png".to_string(),
        alpha: 90,
        background: "#000000".to_string(),
        foreground: "#ffffff".to_string(),
        cursor: "#fefefe".to_string(),
        colors,
    }
}

#[test]
fn theme_name_strips_every_json_suffix() {
    assert_eq!(theme_name("nord"), "nord");
    assert_eq!(theme_name("nord.json"), "nord");
    assert_eq!(theme_name("nord.json.json"), "nord");
    assert_eq!(theme_name(".json"), "");
    assert_eq!(theme_name("nord.jsonx"), "nord.jsonx");
    assert_eq!(theme_name("nord.json"), "nord.json".trim_end_matches(".json"));
}

#[test]
fn theme_paths_and_keys() {
    let p = Paths::from_home("/h");
    assert_eq!(user_theme_path(&p, "nord.json"), "/h/.config/rwal/themes/nord.json");
    assert_eq!(bundled_theme_key("nord"), "nord.json");
    let (dark, light) = colorscheme_paths(&p, "nord");
    assert_eq!(dark, "/h/.config/rwal/colorschemes/dark/nord.json");
    assert_eq!(light, "/h/.config/rwal/colorschemes/light/nord.json");
    assert_eq!(colorscheme_keys("nord.json"), ("dark/nord.json".to_string(), "light/nord.json".to_string()));
}

#[test]
fn parse_theme_decodes_every_slot() {
    let d = parse_theme(Some(theme_file()), "nord").unwrap();
    assert_eq!(d.wallpaper, "/w.png");
    assert_eq!(d.alpha, 90);
    for i in 0..16u8 {
        assert_eq!(d.colors[i as usize], Rgb::new(i * 10, 0, 0));
    }
    assert_eq!(d.special.cursor, Rgb::new(0xfe, 0xfe, 0xfe));
}

#[test]
fn parse_theme_missing_slot_is_corrupted() {
    let mut f = theme_file();
    f.colors.retain(|(k, _)| k != "color9");
    assert_eq!(parse_theme(Some(f), "nord"), Err(RwalError::ThemeCorrupted("nord".to_string())));
    assert_eq!(parse_theme(None, "x"), Err(RwalError::ThemeCorrupted("x".to_string())));
    let mut g = theme_file();
    g.background = "#zz0000".to_string();
    assert_eq!(parse_theme(Some(g), "y"), Err(RwalError::ThemeCorrupted("y".to_string())));
}

#[test]
fn load_prefers_what_was_found() {
    let user = ThemeFound::User { path: "/h/t/nord.json".to_string(), file: None };
    assert_eq!(load("nord.json", user), Err(RwalError::ThemeCorrupted("/h/t/nord.json".to_string())));
    let bundled = ThemeFound::Bundled { file: None };
    assert_eq!(load("nord.json", bundled), Err(RwalError::ThemeCorrupted("nord".to_string())));
    assert_eq!(load("nord.json", ThemeFound::Nothing), Err(RwalError::ThemeNotFound("nord".to_string())));
    assert_eq!(load("nord", ThemeFound::BundledNotText), Err(RwalError::ThemeNotFound("nord".to_string())));
    assert!(load("nord", ThemeFound::Bundled { file: Some(theme_file()) }).is_ok());
    assert!(load_theme("nord", ThemeFound::User { path: "p".to_string(), file: Some(theme_file()) }).is_ok());
}

#[test]
fn list_all_marks_and_sorts() {
    let bundled = vec!["nord.json".to_string(), "dracula.json".to_string(), "gruvbox.json".to_string()];
    let user = vec!["nord".to_string(), "mine".to_string(), "alpha".to_string()];
    let lines = list_all(&bundled, &user);
    assert_eq!(lines, vec!["dracula (default)", "gruvbox (default)", "alpha (user)", "mine (user)", "nord (user)"]);
}

#[test]
fn list_all_empty() {
    assert_eq!(list_all(&vec![], &vec![]), vec!["no themes found".to_string()]);
}

#[test]
fn list_all_orders_like_string_ord() {
    let user: Vec<String> = ["b", "B", "ä", "a", "ab", "Z", "é"].iter().map(|s| s.to_string()).collect();
    let mut expected = user.clone();
    expected.sort();
    let expected: Vec<String> = expected.into_iter().map(|n| format!("{n} (user)")).collect();
    assert_eq!(list_all(&vec![], &user), expected);
}

#[test]
fn theme_name_twice_is_theme_name_once() {
    for n in ["a.json.json", "b", ".json.json", "c.jsonjson", "x.JSON"] {
        let once = theme_name(n);
        assert_eq!(theme_name(&once), once);
    }
}

#[test]
fn scheme_lookup_prefers_user_then_dark() {
    assert_eq!(first_place(true, true, true, true), Some(SchemePlace::UserDark));
    assert_eq!(first_place(false, true, true, true), Some(SchemePlace::UserLight));
    assert_eq!(first_place(false, false, true, true), Some(SchemePlace::BundledDark));
    assert_eq!(first_place(false, false, false, true), Some(SchemePlace::BundledLight));
    assert_eq!(first_place(false, false, false, false), None);
}
