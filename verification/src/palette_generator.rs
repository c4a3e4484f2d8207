//! A four-color summary palette (background, foreground, accent, secondary)
//! written as hex strings.
use vstd::prelude::*;
use crate::colors::types::{hex_text, Rgb};

verus! {

/// Four hex colors.
pub struct Palette {
    pub background: String,
    pub foreground: String,
    pub accent: String,
    pub secondary: String,
}

/// `#rrggbb` in lowercase.
pub fn to_hex(color: Rgb) -> (s: String)
    ensures
        s@ == hex_text(color),
{
    color.to_hex()
}

/// The first four colors as background, foreground, accent and secondary;
/// with fewer than four colors, black, white, red and green.
pub fn generate_palette(colors: Vec<Rgb>) -> (p: Palette)
    ensures
        colors@.len() < 4 ==> {
            &&& p.background@ == "#000000"@
            &&& p.foreground@ == "#ffffff"@
            &&& p.accent@ == "#ff0000"@
            &&& p.secondary@ == "#00ff00"@
        },
        colors@.len() >= 4 ==> {
            &&& p.background@ == hex_text(colors@[0])
            &&& p.foreground@ == hex_text(colors@[1])
            &&& p.accent@ == hex_text(colors@[2])
            &&& p.secondary@ == hex_text(colors@[3])
        },
{
    if colors.len() < 4 {
        return Palette {
            background: "#000000".to_string(),
            foreground: "#ffffff".to_string(),
            accent: "#ff0000".to_string(),
            secondary: "#00ff00".to_string(),
        };
    }
    Palette {
        background: to_hex(colors[0]),
        foreground: to_hex(colors[1]),
        accent: to_hex(colors[2]),
        secondary: to_hex(colors[3]),
    }
}

} // verus!
