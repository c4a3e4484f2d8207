use palette::{Darken, FromColor, Hsl, IntoColor, Lighten, Srgb};
use rwal::colors::palette::{
    build, find_vibrant_base, mode_from_name, pad_to, pick_accents, sort_by_luminance, Mode, Tone,
};
use rwal::colors::semantic::from_dict;
use rwal::colors::types::{ColorDict, Rgb};
use rwal::error::RwalError;

// ── the floating-point color operations the palette is built with ────────────

fn to_hsl(c: &Rgb) -> Hsl {
    Hsl::from_color(Srgb::new(c.r as f32 / 255.0, c.g as f32 / 255.0, c.b as f32 / 255.0))
}

fn from_hsl(hsl: Hsl) -> Rgb {
    let c: Srgb<f32> = hsl.into_color();
    Rgb::new(
        (c.red.clamp(0.0, 1.0) * 255.0).round() as u8,
        (c.green.clamp(0.0, 1.0) * 255.0).round() as u8,
        (c.blue.clamp(0.0, 1.0) * 255.0).round() as u8,
    )
}

fn lighten(c: &Rgb, amount: f32) -> Rgb {
    from_hsl(to_hsl(c).lighten(amount))
}

fn darken(c: &Rgb, amount: f32) -> Rgb {
    from_hsl(to_hsl(c).darken(amount))
}

fn linearize(c: u8) -> f32 {
    let sc = c as f32 / 255.0;
    if sc <= 0.03928 { sc / 12.92 } else { ((sc + 0.055) / 1.055).powf(2.4) }
}

fn relative_luminance(c: &Rgb) -> f32 {
    0.2126 * linearize(c.r) + 0.7152 * linearize(c.g) + 0.0722 * linearize(c.b)
}

fn contrast_ratio(c1: &Rgb, c2: &Rgb) -> f32 {
    let l1 = relative_luminance(c1);
    let l2 = relative_luminance(c2);
    (l1.max(l2) + 0.05) / (l1.min(l2) + 0.05)
}

fn unlinearize(l: f32) -> u8 {
    let sc = if l <= 0.0031308 { l * 12.92 } else { 1.055 * l.powf(1.0 / 2.4) - 0.055 };
    (sc.clamp(0.0, 1.0) * 255.0).round() as u8
}

fn ensure_contrast(bg: &Rgb, fg: &Rgb, target: f32) -> Rgb {
    if contrast_ratio(bg, fg) >= target {
        return *fg;
    }
    let l_bg = relative_luminance(bg);
    let target_l = if l_bg < 0.5 { target * (l_bg + 0.05) - 0.05 + 0.005 } else { (l_bg + 0.05) / target - 0.05 - 0.005 }
        .clamp(0.0, 1.0);
    let (mut r, mut g, mut b) = (linearize(fg.r), linearize(fg.g), linearize(fg.b));
    let l_fg = 0.2126 * r + 0.7152 * g + 0.0722 * b;
    if l_fg < 0.0001 {
        r = 1.0;
        g = 1.0;
        b = 1.0;
    }
    let scale = target_l / l_fg.max(0.001);
    Rgb::new(unlinearize(r * scale), unlinearize(g * scale), unlinearize(b * scale))
}

fn tone(t: Tone) -> Rgb {
    match t {
        Tone::Darken(c, p) => darken(&c, p as f32 / 100.0),
        Tone::Lighten(c, p) => lighten(&c, p as f32 / 100.0),
        Tone::Legible { background, foreground } => ensure_contrast(&background, &foreground, 4.5),
    }
}

fn classic_only(_m: Mode, v: Vec<Rgb>) -> Vec<Rgb> {
    v
}

fn luminance(c: &Rgb) -> f32 {
    0.299 * c.r as f32 + 0.587 * c.g as f32 + 0.114 * c.b as f32
}

fn build_classic(raw: Vec<Rgb>, wallpaper: &str, alpha: u8, light: bool) -> Result<ColorDict, RwalError> {
    build(raw, wallpaper.to_string(), alpha, light, "classic", tone, classic_only)
}

fn dummy_path() -> &'static str {
    "/tmp/wall.jpg"
}

fn flat_palette(n: usize) -> Vec<Rgb> {
    (0..n)
        .map(|i| {
            let v = (i * 255 / (n - 1).max(1)) as u8;
            Rgb::new(v, v, v)
        })
        .collect()
}

// ── build: basic structure ───────────────────────────────────────────────────

#[test]
fn test_build_returns_16_colors() {
    let raw = flat_palette(16);
    let dict = build_classic(raw, dummy_path(), 100, false).unwrap();
    assert_eq!(dict.colors.len(), 16);
}

#[test]
fn test_build_empty_raw_errors() {
    assert!(matches!(build_classic(vec![], dummy_path(), 100, false), Err(RwalError::NoColorsExtracted)));
}

#[test]
fn test_build_wallpaper_and_alpha_preserved() {
    let raw = flat_palette(16);
    let path = "/home/user/wall.png";
    let dict = build_classic(raw, path, 80, false).unwrap();
    assert_eq!(dict.wallpaper, path);
    assert_eq!(dict.alpha, 80);
}

// ── slot assignments ─────────────────────────────────────────────────────────

#[test]
fn test_color0_is_darkest() {
    let raw = flat_palette(16);
    let dict = build_classic(raw, dummy_path(), 100, false).unwrap();
    assert!(luminance(&dict.colors[0]) <= luminance(&dict.colors[7]));
    assert!(luminance(&dict.colors[0]) <= luminance(&dict.colors[15]));
}

#[test]
fn test_color15_is_brightest() {
    let raw = flat_palette(16);
    let dict = build_classic(raw, dummy_path(), 100, false).unwrap();
    assert!(luminance(&dict.colors[15]) >= luminance(&dict.colors[0]));
    assert!(luminance(&dict.colors[15]) >= luminance(&dict.colors[7]));
}

#[test]
fn test_color8_is_darker_than_color0() {
    let raw = flat_palette(16);
    let dict = build_classic(raw, dummy_path(), 100, false).unwrap();
    assert!(luminance(&dict.colors[8]) <= luminance(&dict.colors[0]) + 1.0);
}

#[test]
fn test_bright_accents_lighter_than_base_accents() {
    let raw = flat_palette(16);
    let dict = build_classic(raw, dummy_path(), 100, false).unwrap();
    for i in 1..=6 {
        assert!(
            luminance(&dict.colors[i + 8]) >= luminance(&dict.colors[i]) - 1.0,
            "color{} should be >= color{} luminance",
            i + 8,
            i
        );
    }
}

// ── special slots ────────────────────────────────────────────────────────────

#[test]
fn test_special_background_equals_color0() {
    let raw = flat_palette(16);
    let dict = build_classic(raw, dummy_path(), 100, false).unwrap();
    assert_eq!(dict.special.background, dict.colors[0]);
}

#[test]
fn test_special_foreground_equals_color15() {
    let raw = flat_palette(16);
    let dict = build_classic(raw, dummy_path(), 100, false).unwrap();
    assert_eq!(dict.special.foreground, dict.colors[15]);
}

#[test]
fn test_special_cursor_equals_color15() {
    let raw = flat_palette(16);
    let dict = build_classic(raw, dummy_path(), 100, false).unwrap();
    assert_eq!(dict.special.cursor, dict.colors[15]);
}

// ── light mode ───────────────────────────────────────────────────────────────

#[test]
fn test_light_mode_inverts_background_and_foreground() {
    let raw = flat_palette(16);
    let dark = build_classic(raw.clone(), dummy_path(), 100, false).unwrap();
    let light = build_classic(raw, dummy_path(), 100, true).unwrap();
    assert!(luminance(&light.colors[0]) > luminance(&dark.colors[0]));
}

#[test]
fn test_light_mode_color0_equals_dark_color15() {
    let raw = flat_palette(16);
    let dark = build_classic(raw.clone(), dummy_path(), 100, false).unwrap();
    let light = build_classic(raw, dummy_path(), 100, true).unwrap();
    assert_eq!(light.colors[0], dark.colors[15]);
}

// ── small input ──────────────────────────────────────────────────────────────

#[test]
fn test_build_with_single_color_does_not_panic() {
    let raw = vec![Rgb::new(100, 150, 200)];
    let result = build_classic(raw, dummy_path(), 100, false);
    assert!(result.is_ok());
}

#[test]
fn test_build_with_two_colors_does_not_panic() {
    let raw = vec![Rgb::new(20, 20, 20), Rgb::new(200, 200, 200)];
    let result = build_classic(raw, dummy_path(), 100, false);
    assert!(result.is_ok());
}

// ── accessible ───────────────────────────────────────────────────────────────

#[test]
fn test_accessibility_is_enforced_by_default() {
    let raw = flat_palette(16);
    let dict = build_classic(raw, dummy_path(), 100, false).unwrap();
    for i in 1..=15 {
        if i == 8 {
            continue;
        }
        let cr = contrast_ratio(&dict.colors[0], &dict.colors[i]);
        assert!(cr >= 4.4, "Color{} failed contrast check. Ratio: {}", i, cr);
    }
}

// ── own cases ────────────────────────────────────────────────────────────────

#[test]
fn build_classic_slots_before_contrast() {
    // With a tone that answers every request with its input color, the slots
    // are exactly the sorted, padded colors.
    let identity = |t: Tone| match t {
        Tone::Darken(c, _) | Tone::Lighten(c, _) => c,
        Tone::Legible { foreground, .. } => foreground,
    };
    let raw = vec![Rgb::new(200, 200, 200), Rgb::new(0, 0, 0), Rgb::new(100, 100, 100)];
    let d = build(raw, String::new(), 1, false, "balanced", identity, classic_only).unwrap();
    // sorted: 0, 100, 200, padded with 200 to eight entries
    assert_eq!(d.colors[0], Rgb::new(0, 0, 0));
    assert_eq!(d.colors[7], Rgb::new(200, 200, 200));
    assert_eq!(d.colors[15], Rgb::new(200, 200, 200));
    assert_eq!(d.colors[8], Rgb::new(0, 0, 0));
    assert_eq!(d.colors[1], Rgb::new(100, 100, 100));
    let light = build(vec![Rgb::new(9, 9, 9), Rgb::new(250, 250, 250)], String::new(), 1, true, "x", identity, classic_only)
        .unwrap();
    assert_eq!(light.colors[0], Rgb::new(250, 250, 250));
    assert_eq!(light.colors[15], Rgb::new(9, 9, 9));
}

#[test]
fn build_other_modes_take_the_generator_accents() {
    let identity = |t: Tone| match t {
        Tone::Darken(c, _) | Tone::Lighten(c, _) => c,
        Tone::Legible { foreground, .. } => foreground,
    };
    let gen = |m: Mode, _v: Vec<Rgb>| {
        let k = match m {
            Mode::Adaptive => 1,
            Mode::Vibrant => 2,
            Mode::Pastel => 3,
            Mode::Classic => 4,
        };
        vec![Rgb::new(k, k, k); 7]
    };
    let raw = flat_palette(10);
    let d = build(raw.clone(), String::new(), 1, false, "neon", identity, gen).unwrap();
    assert_eq!(d.colors[1], Rgb::new(2, 2, 2));
    assert_eq!(d.colors[9], Rgb::new(2, 2, 2));
    let d = build(raw, String::new(), 1, false, "soft", identity, gen).unwrap();
    assert_eq!(d.colors[6], Rgb::new(3, 3, 3));
}

#[test]
fn mode_names() {
    assert_eq!(mode_from_name("dynamic"), Mode::Adaptive);
    assert_eq!(mode_from_name("neon"), Mode::Vibrant);
    assert_eq!(mode_from_name("soft"), Mode::Pastel);
    assert_eq!(mode_from_name("balanced"), Mode::Classic);
    assert_eq!(mode_from_name("anything"), Mode::Classic);
    assert_eq!(mode_from_name("adaptive"), Mode::Adaptive);
    assert_eq!(mode_from_name("vibrant"), Mode::Vibrant);
    assert_eq!(mode_from_name("pastel"), Mode::Pastel);
    assert_eq!(mode_from_name("classic"), Mode::Classic);
}

#[test]
fn sort_by_luminance_orders_by_yiq() {
    let out = sort_by_luminance(vec![Rgb::new(0, 0, 255), Rgb::new(255, 0, 0), Rgb::new(0, 255, 0), Rgb::new(0, 0, 0)]);
    assert_eq!(out, vec![Rgb::new(0, 0, 0), Rgb::new(0, 0, 255), Rgb::new(255, 0, 0), Rgb::new(0, 255, 0)]);
}

#[test]
fn pad_to_repeats_the_last_color() {
    let out = pad_to(&[Rgb::new(1, 1, 1), Rgb::new(2, 2, 2)], 4);
    assert_eq!(out, vec![Rgb::new(1, 1, 1), Rgb::new(2, 2, 2), Rgb::new(2, 2, 2), Rgb::new(2, 2, 2)]);
    assert_eq!(pad_to(&[Rgb::new(1, 1, 1)], 0).len(), 1);
}

#[test]
fn pick_accents_spreads_over_the_inner_range() {
    let sorted: Vec<Rgb> = (0..10u8).map(|i| Rgb::new(i, i, i)).collect();
    let out = pick_accents(&sorted, 6, &tone);
    // inner = 1..=8 (8 entries); indices i*8/6 = 0,1,2,4,5,6
    let expected: Vec<Rgb> = [1u8, 2, 3, 5, 6, 7].iter().map(|&v| Rgb::new(v, v, v)).collect();
    assert_eq!(out, expected);
}

#[test]
fn vibrant_base_is_the_most_saturated_inner_color() {
    let sorted = vec![
        Rgb::new(255, 0, 0), // excluded: first
        Rgb::new(100, 100, 100),
        Rgb::new(90, 100, 110),
        Rgb::new(50, 200, 50),
        Rgb::new(60, 190, 60),
        Rgb::new(0, 0, 255), // excluded: last
    ];
    assert_eq!(find_vibrant_base(&sorted), Rgb::new(50, 200, 50));
    let grays = vec![Rgb::new(1, 1, 1), Rgb::new(5, 5, 5), Rgb::new(9, 9, 9)];
    assert_eq!(find_vibrant_base(&grays), Rgb::new(5, 5, 5));
}

// ── semantic roles ───────────────────────────────────────────────────────────

#[test]
fn semantic_roles_from_dict() {
    let raw = flat_palette(16);
    let dict = build_classic(raw, dummy_path(), 100, false).unwrap();
    let s = from_dict(&dict, tone);
    assert_eq!(s.colors.background, dict.colors[0]);
    assert_eq!(s.colors.surface, lighten(&dict.colors[0], 0.05));
    assert_eq!(s.colors.foreground, dict.colors[15]);
    assert_eq!(s.colors.primary, dict.colors[1]);
    assert_eq!(s.colors.neutral, dict.colors[8]);
    // the palette is all grays, so the state roles fall back to the conventional colors
    assert_eq!(s.colors.error, Rgb::new(0xea, 0x4d, 0x4d));
    assert_eq!(s.colors.success, Rgb::new(0x6a, 0xbf, 0x69));
    assert_eq!(s.colors.warning, Rgb::new(0xf0, 0xad, 0x4e));
    assert_eq!(s.colors.info, Rgb::new(0x5b, 0xc0, 0xde));
    assert_eq!(s.wallpaper, "/tmp/wall.jpg");
}

#[test]
fn semantic_roles_keep_saturated_colors() {
    let mut colors = [Rgb::new(0, 0, 0); 16];
    colors[1] = Rgb::new(200, 30, 30);
    let dict = ColorDict {
        wallpaper: String::new(),
        alpha: 100,
        special: rwal::colors::types::Special { background: colors[0], foreground: colors[15], cursor: colors[15] },
        colors,
    };
    let s = from_dict(&dict, tone);
    assert_eq!(s.colors.error, Rgb::new(200, 30, 30));
}

#[test]
fn mode_names_and_aliases_build_the_same_scheme() {
    let raw = flat_palette(16);
    let accents = |m: Mode, v: Vec<Rgb>| -> Vec<Rgb> {
        let shift = match m {
            Mode::Classic => 0,
            Mode::Adaptive => 1,
            Mode::Vibrant => 2,
            Mode::Pastel => 3,
        };
        v.iter().skip(1).take(6).map(|c| Rgb::new(c.r.saturating_add(shift), c.g, c.b)).collect()
    };
    for (a, b) in [("adaptive", "dynamic"), ("vibrant", "neon"), ("pastel", "soft"), ("classic", "balanced")] {
        let x = build(raw.clone(), dummy_path().to_string(), 100, false, a, tone, accents).unwrap();
        let y = build(raw.clone(), dummy_path().to_string(), 100, false, b, tone, accents).unwrap();
        assert_eq!(x, y);
    }
}

#[test]
fn dark_color8_is_the_background_darkened() {
    let d = build_classic(flat_palette(16), dummy_path(), 100, false).unwrap();
    assert_eq!(d.colors[8], darken(&d.colors[0], 0.20));
    let raw = vec![Rgb::new(90, 40, 10), Rgb::new(200, 180, 150), Rgb::new(30, 60, 90)];
    let d = build_classic(raw.clone(), dummy_path(), 100, false).unwrap();
    assert_eq!(d.colors[8], darken(&d.colors[0], 0.20));
    assert!(raw.contains(&d.colors[0]));
}

#[test]
fn pick_accents_lightens_the_first_of_fewer_than_three_colors() {
    let c = Rgb::new(40, 60, 80);
    for sorted in [vec![c], vec![c, Rgb::new(200, 200, 200)]] {
        let out = pick_accents(&sorted, 4, &tone);
        let expected: Vec<Rgb> = (0..4).map(|i| lighten(&c, 0.1 * (i + 1) as f32)).collect();
        assert_eq!(out, expected);
    }
}
