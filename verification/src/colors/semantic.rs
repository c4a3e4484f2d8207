//! Maps a 16-slot `ColorDict` onto named semantic roles (background, surface,
//! primary, error, …), so a consumer can ask for "what a color is" rather than
//! "which terminal slot it occupies". Roles come from the palette alone.
use vstd::prelude::*;
use crate::colors::palette::{toned, Tone};
use crate::colors::types::{sat_den, sat_num, ColorDict, Rgb};

verus! {

#[derive(Debug, Clone, PartialEq, Eq)]
pub struct SemanticDict {
    pub wallpaper: String,
    pub alpha: u8,
    pub colors: SemanticRoles,
}

#[derive(Debug, Clone, Copy, PartialEq, Eq, Structural)]
pub struct SemanticRoles {
    // Backgrounds
    pub background: Rgb,
    /// Slightly lighter than background.
    pub surface: Rgb,
    // Text
    pub foreground: Rgb,
    pub cursor: Rgb,
    // Accent triad
    pub primary: Rgb,
    pub secondary: Rgb,
    pub tertiary: Rgb,
    /// color4: general highlight.
    pub accent: Rgb,
    // State roles (from palette where available)
    pub error: Rgb,
    pub success: Rgb,
    pub warning: Rgb,
    pub info: Rgb,
    // Neutrals
    pub neutral: Rgb,
    pub neutral_variant: Rgb,
}

/// Whether a color is essentially gray: its HSL saturation is below one tenth.
pub open spec fn grayish(c: Rgb) -> bool {
    10 * sat_num(c) < sat_den(c)
}

/// The state-role color taken from a palette slot: the slot itself, or the
/// conventional fallback when the slot is essentially gray.
pub open spec fn nudged(src: Rgb, fallback: Rgb) -> Rgb {
    if grayish(src) { fallback } else { src }
}

/// Keep a palette color for a state role when it carries enough saturation;
/// an essentially gray color has no meaningful hue, so the conventional
/// fallback is used instead.
pub fn nudge_to_hue(src: &Rgb, fallback: &Rgb) -> (c: Rgb)
    ensures
        c == nudged(*src, *fallback),
{
    let (n, d) = src.saturation();
    if 10 * n < d {
        *fallback
    } else {
        *src
    }
}

/// Conventional error red (#ea4d4d).
pub open spec fn error_red() -> Rgb { Rgb { r: 0xea, g: 0x4d, b: 0x4d } }
/// Conventional success green (#6abf69).
pub open spec fn success_green() -> Rgb { Rgb { r: 0x6a, g: 0xbf, b: 0x69 } }
/// Conventional warning amber (#f0ad4e).
pub open spec fn warning_amber() -> Rgb { Rgb { r: 0xf0, g: 0xad, b: 0x4e } }
/// Conventional info cyan (#5bc0de).
pub open spec fn info_cyan() -> Rgb { Rgb { r: 0x5b, g: 0xc0, b: 0xde } }

/// Derive a `SemanticDict` from a `ColorDict`; `tone` does the floating-point
/// lightening of the surface color.
pub fn from_dict<T: Fn(Tone) -> Rgb>(dict: &ColorDict, tone: T) -> (s: SemanticDict)
    requires
        forall|t: Tone| call_requires(tone, (t,)),
    ensures
        s.wallpaper@ == dict.wallpaper@,
        s.alpha == dict.alpha,
        s.colors.background == dict.colors@[0],
        toned(tone, Tone::Lighten(dict.colors@[0], 5), s.colors.surface),
        s.colors.foreground == dict.colors@[15],
        s.colors.cursor == dict.special.cursor,
        s.colors.primary == dict.colors@[1],
        s.colors.secondary == dict.colors@[2],
        s.colors.tertiary == dict.colors@[3],
        s.colors.accent == dict.colors@[4],
        s.colors.error == nudged(dict.colors@[1], error_red()),
        s.colors.success == nudged(dict.colors@[2], success_green()),
        s.colors.warning == nudged(dict.colors@[3], warning_amber()),
        s.colors.info == nudged(dict.colors@[4], info_cyan()),
        s.colors.neutral == dict.colors@[8],
        s.colors.neutral_variant == dict.colors@[7],
{
    let bg = dict.colors[0];
    let fg = dict.colors[15];
    let surface = tone(Tone::Lighten(bg, 5));
    let error = nudge_to_hue(&dict.colors[1], &Rgb::new(0xea, 0x4d, 0x4d));
    let success = nudge_to_hue(&dict.colors[2], &Rgb::new(0x6a, 0xbf, 0x69));
    let warning = nudge_to_hue(&dict.colors[3], &Rgb::new(0xf0, 0xad, 0x4e));
    let info = nudge_to_hue(&dict.colors[4], &Rgb::new(0x5b, 0xc0, 0xde));
    SemanticDict {
        wallpaper: dict.wallpaper.clone(),
        alpha: dict.alpha,
        colors: SemanticRoles {
            background: bg,
            surface,
            foreground: fg,
            cursor: dict.special.cursor,
            primary: dict.colors[1],
            secondary: dict.colors[2],
            tertiary: dict.colors[3],
            accent: dict.colors[4],
            error,
            success,
            warning,
            info,
            neutral: dict.colors[8],
            neutral_variant: dict.colors[7],
        },
    }
}

} // verus!
