//! Wallpaper setters driven by a backend program name.
use vstd::prelude::*;
use crate::text::str_eq;

verus! {

/// The option a supported setter program takes before the image path.
pub open spec fn setter_flag(backend: Seq<char>) -> Option<Seq<char>> {
    if backend == "feh"@ {
        Some("--bg-fill"@)
    } else if backend == "swaybg"@ {
        Some("-i"@)
    } else if backend == "xwallpaper"@ {
        Some("--zoom"@)
    } else {
        None
    }
}

/// The arguments to run the setter `backend` with for the image `path`:
/// its option, then the path; `None` for an unsupported backend.
pub fn wallpaper_args(backend: &str, path: &str) -> (a: Option<Vec<String>>)
    ensures
        a is None <==> setter_flag(backend@) is None,
        a is Some ==> a->0@.len() == 2 && a->0@[0]@ == setter_flag(backend@)->0
            && a->0@[1]@ == path@,
{
    let flag: &str = if str_eq(backend, "feh") {
        "--bg-fill"
    } else if str_eq(backend, "swaybg") {
        "-i"
    } else if str_eq(backend, "xwallpaper") {
        "--zoom"
    } else {
        return None;
    };
    let mut v: Vec<String> = Vec::new();
    v.push(flag.to_string());
    v.push(path.to_string());
    Some(v)
}

} // verus!

verus! {

/// The operating system the program runs on.
#[derive(Debug, Clone, Copy, PartialEq, Eq, Structural)]
pub enum Platform {
    MacOs,
    Windows,
    Other,
}

/// The tools that can set the wallpaper.
#[derive(Debug, Clone, Copy, PartialEq, Eq, Structural)]
pub enum Setter {
    /// Finder, through osascript.
    Finder,
    /// SystemParametersInfo, through PowerShell.
    PowerShell,
    /// swaymsg.
    Sway,
    /// hyprpaper, through hyprctl.
    Hyprpaper,
    /// feh on an X display.
    Feh,
}

/// The setter for the running session: the platform's own on macOS and
/// Windows; elsewhere sway, then Hyprland, then feh on an X display; none
/// when no supported compositor is found.
pub open spec fn setter_for(platform: Platform, sway: bool, hyprland: bool, x_display: bool) -> Option<Setter> {
    match platform {
        Platform::MacOs => Some(Setter::Finder),
        Platform::Windows => Some(Setter::PowerShell),
        Platform::Other => if sway {
            Some(Setter::Sway)
        } else if hyprland {
            Some(Setter::Hyprpaper)
        } else if x_display {
            Some(Setter::Feh)
        } else {
            None
        },
    }
}

/// Pick the wallpaper setter from what the session offers.
pub fn pick_setter(platform: Platform, sway: bool, hyprland: bool, x_display: bool) -> (s: Option<Setter>)
    ensures
        s == setter_for(platform, sway, hyprland, x_display),
{
    match platform {
        Platform::MacOs => Some(Setter::Finder),
        Platform::Windows => Some(Setter::PowerShell),
        Platform::Other => if sway {
            Some(Setter::Sway)
        } else if hyprland {
            Some(Setter::Hyprpaper)
        } else if x_display {
            Some(Setter::Feh)
        } else {
            None
        },
    }
}

} // verus!
