use rwal::paths::{join, Paths};
use std::path::Path;

fn fake_home() -> String {
    "/home/testuser".to_string()
}

fn paths() -> Paths {
    Paths::from_home(&fake_home())
}

#[test]
fn test_cache_dir_is_under_home() {
    let p = paths();
    assert!(Path::new(&p.cache_dir).starts_with(fake_home()));
    assert!(Path::new(&p.cache_dir).ends_with(".cache/rwal"));
}

#[test]
fn test_config_dir_is_under_home() {
    let p = paths();
    assert!(Path::new(&p.config_dir).starts_with(fake_home()));
    assert!(Path::new(&p.config_dir).ends_with(".config/rwal"));
}

#[test]
fn test_colors_json_is_under_cache_dir() {
    let p = paths();
    assert!(Path::new(&p.colors_json).starts_with(&p.cache_dir));
    assert_eq!(Path::new(&p.colors_json).file_name().unwrap(), "colors.json");
}

#[test]
fn test_sequences_is_under_cache_dir() {
    let p = paths();
    assert!(Path::new(&p.sequences).starts_with(&p.cache_dir));
    assert_eq!(Path::new(&p.sequences).file_name().unwrap(), "sequences");
}

#[test]
fn test_schemes_dir_is_under_cache_dir() {
    let p = paths();
    assert!(Path::new(&p.schemes_dir).starts_with(&p.cache_dir));
    assert!(Path::new(&p.schemes_dir).ends_with("schemes"));
}

#[test]
fn test_templates_dir_is_under_config_dir() {
    let p = paths();
    assert!(Path::new(&p.templates_dir).starts_with(&p.config_dir));
    assert!(Path::new(&p.templates_dir).ends_with("templates"));
}

#[test]
fn test_themes_dir_is_under_config_dir() {
    let p = paths();
    assert!(Path::new(&p.themes_dir).starts_with(&p.config_dir));
    assert!(Path::new(&p.themes_dir).ends_with("themes"));
}

#[test]
fn test_different_homes_produce_different_paths() {
    let p1 = Paths::from_home("/home/alice");
    let p2 = Paths::from_home("/home/bob");
    assert_ne!(p1.cache_dir, p2.cache_dir);
    assert_ne!(p1.colors_json, p2.colors_json);
}

#[test]
fn test_scheme_cache_has_json_extension() {
    let p = paths();
    assert_eq!(Path::new(&p.scheme_cache("abc123")).extension().unwrap(), "json");
}

#[test]
fn test_scheme_cache_is_under_schemes_dir() {
    let p = paths();
    assert!(Path::new(&p.scheme_cache("abc123")).starts_with(&p.schemes_dir));
}

#[test]
fn test_scheme_cache_filename_contains_hash() {
    let p = paths();
    let hash = "deadbeef1234";
    let cache = p.scheme_cache(hash);
    let name = Path::new(&cache).file_name().unwrap().to_str().unwrap().to_string();
    assert!(name.contains(hash));
}

#[test]
fn test_scheme_cache_different_hashes_differ() {
    let p = paths();
    assert_ne!(p.scheme_cache("hash_a"), p.scheme_cache("hash_b"));
}

#[test]
fn test_scheme_cache_same_hash_is_deterministic() {
    let p = paths();
    assert_eq!(p.scheme_cache("stable"), p.scheme_cache("stable"));
}

#[test]
fn every_path_exactly() {
    let p = paths();
    assert_eq!(p.cache_dir, "/home/testuser/.cache/rwal");
    assert_eq!(p.colors_json, "/home/testuser/.cache/rwal/colors.json");
    assert_eq!(p.sequences, "/home/testuser/.cache/rwal/sequences");
    assert_eq!(p.schemes_dir, "/home/testuser/.cache/rwal/schemes");
    assert_eq!(p.config_dir, "/home/testuser/.config/rwal");
    assert_eq!(p.templates_dir, "/home/testuser/.config/rwal/templates");
    assert_eq!(p.themes_dir, "/home/testuser/.config/rwal/themes");
    assert_eq!(p.colorschemes_dir, "/home/testuser/.config/rwal/colorschemes");
    assert_eq!(p.config_map, "/home/testuser/.config/rwal/config-map.toml");
    assert_eq!(p.scheme_cache("ab"), "/home/testuser/.cache/rwal/schemes/ab.json");
}

#[test]
fn join_follows_pathbuf_push() {
    for (base, part) in [("/a", "b"), ("/a/", "b"), ("", "b"), ("/a", "/c"), ("a", ""), ("/a/b", "c/d")] {
        let expected = Path::new(base).join(part).to_str().unwrap().to_string();
        assert_eq!(join(base, part), expected, "join({base:?}, {part:?})");
    }
}

#[test]
fn resolve_uses_a_home_directory() {
    if let Ok(p) = Paths::resolve() {
        assert!(p.cache_dir.ends_with(".cache/rwal"));
    }
}

#[test]
fn different_keys_give_different_scheme_paths() {
    for home in ["/home/u", "/", ""] {
        let p = Paths::from_home(home);
        assert_ne!(p.scheme_cache("hash_a"), p.scheme_cache("hash_b"));
        assert_ne!(p.scheme_cache("ab"), p.scheme_cache("a"));
    }
}
