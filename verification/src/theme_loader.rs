//! Named color schemes sorted into `dark/` and `light/`: looked up in the
//! user's colorschemes directory (dark first, then light), then among the
//! bundled ones in the same order.
use vstd::prelude::*;
use crate::colors::types::ColorDict;
use crate::error::RwalError;
use crate::export::theme::{load, theme_file_name, without_json, ThemeFound};
use crate::paths::{join, path_join, Paths};
use crate::text::{chars_of, push_chars, string_of};

verus! {

/// The places to look for a user color scheme, in order:
/// `<colorschemes_dir>/dark/<name>.json`, then `…/light/<name>.json`.
pub fn colorscheme_paths(paths: &Paths, name: &str) -> (p: (String, String))
    ensures
        p.0@ == path_join(path_join(paths.colorschemes_dir@, "dark"@), theme_file_name(name@)),
        p.1@ == path_join(path_join(paths.colorschemes_dir@, "light"@), theme_file_name(name@)),
{
    let f = crate::export::theme::bundled_theme_key(name);
    let dark = join(join(paths.colorschemes_dir.as_str(), "dark").as_str(), f.as_str());
    let light = join(join(paths.colorschemes_dir.as_str(), "light").as_str(), f.as_str());
    (dark, light)
}

fn prefixed(prefix: &str, rest: &str) -> (s: String)
    ensures
        s@ == prefix@ + rest@,
{
    let mut cs = chars_of(prefix);
    let r = chars_of(rest);
    push_chars(&mut cs, &r);
    string_of(&cs)
}

/// The keys of bundled color schemes, in order: `dark/<name>.json`, then `light/<name>.json`.
pub fn colorscheme_keys(name: &str) -> (k: (String, String))
    ensures
        k.0@ == "dark/"@ + theme_file_name(name@),
        k.1@ == "light/"@ + theme_file_name(name@),
{
    let f = crate::export::theme::bundled_theme_key(name);
    (prefixed("dark/", f.as_str()), prefixed("light/", f.as_str()))
}

/// A place where a named color scheme can be found.
#[derive(Debug, Clone, Copy, PartialEq, Eq, Structural)]
pub enum SchemePlace {
    UserDark,
    UserLight,
    BundledDark,
    BundledLight,
}

/// The first place, in lookup order, that holds the scheme: the user's
/// `dark/`, the user's `light/`, then the bundled `dark/` and `light/`.
/// A user's file always wins over a bundled one, and a dark one over a light
/// one from the same source; `None` when no place holds it.
pub fn first_place(user_dark: bool, user_light: bool, bundled_dark: bool, bundled_light: bool) -> (p: Option<SchemePlace>)
    ensures
        p == Some(SchemePlace::UserDark) <==> user_dark,
        p == Some(SchemePlace::UserLight) <==> !user_dark && user_light,
        p == Some(SchemePlace::BundledDark) <==> !user_dark && !user_light && bundled_dark,
        p == Some(SchemePlace::BundledLight) <==> !user_dark && !user_light && !bundled_dark && bundled_light,
        p is None <==> !user_dark && !user_light && !bundled_dark && !bundled_light,
{
    if user_dark {
        Some(SchemePlace::UserDark)
    } else if user_light {
        Some(SchemePlace::UserLight)
    } else if bundled_dark {
        Some(SchemePlace::BundledDark)
    } else if bundled_light {
        Some(SchemePlace::BundledLight)
    } else {
        None
    }
}

/// Load a named color scheme from what its lookup found (the first of the
/// places above that holds it): decoded as `export::theme::load` decodes a
/// theme.
pub fn load_theme(name: &str, found: ThemeFound) -> (r: Result<ColorDict, RwalError>)
    requires
        match found {
            ThemeFound::User { path, file } => file is Some ==> file->0.parsable(),
            ThemeFound::Bundled { file } => file is Some ==> file->0.parsable(),
            _ => true,
        },
    ensures
        match found {
            ThemeFound::User { path, file } => {
                &&& r is Ok <==> file is Some && file->0.complete()
                &&& r is Ok ==> file->0.describes(r->Ok_0)
                &&& r is Err ==> r->Err_0 == RwalError::ThemeCorrupted(r->Err_0->ThemeCorrupted_0)
                    && r->Err_0->ThemeCorrupted_0@ == path@
            },
            ThemeFound::Bundled { file } => {
                &&& r is Ok <==> file is Some && file->0.complete()
                &&& r is Ok ==> file->0.describes(r->Ok_0)
                &&& r is Err ==> r->Err_0 == RwalError::ThemeCorrupted(r->Err_0->ThemeCorrupted_0)
                    && r->Err_0->ThemeCorrupted_0@ == without_json(name@)
            },
            _ => r is Err && r->Err_0 == RwalError::ThemeNotFound(r->Err_0->ThemeNotFound_0)
                && r->Err_0->ThemeNotFound_0@ == without_json(name@),
        },
{
    load(name, found)
}

} // verus!
