//! The command line as the library sees it: the parsed flags, and the check
//! that at least one action was asked for.
use vstd::prelude::*;

verus! {

/// The parsed command line.
pub struct Cli {
    /// Image file or directory to generate colors from (`-i`).
    pub image: Option<String>,
    /// Restore the last generated color scheme from cache (`-R`).
    pub restore: bool,
    /// Show semantic roles + base16 preview (`-p`).
    pub preview: bool,
    /// Validate config-map.toml mappings (`-d`).
    pub debug: bool,
    /// Render user templates from ~/.config/rwal/templates/ (`-r`).
    pub render: bool,
    /// Map rendered templates to their destinations (`-m [APP]`): absent,
    /// present for all entries, or present for one named entry.
    pub map: Option<Option<String>>,
    /// Generate a light color scheme (`-l`).
    pub light: bool,
    /// Also apply the wallpaper (`-w`).
    pub wallpaper: bool,
    /// Skip writing sequences and templates (`-n`).
    pub noop: bool,
    /// Suppress all output (`-q`).
    pub quiet: bool,
    /// Color extraction backend (`--backend`).
    pub backend: String,
    /// Palette generation mode (`--mode`).
    pub mode: String,
}

impl Cli {
    /// Whether the command line asks for at least one primary action.
    pub open spec fn has_action(&self) -> bool {
        ||| self.image is Some
        ||| self.restore
        ||| self.map is Some
        ||| self.render
        ||| self.preview
        ||| self.debug
    }

    /// Validate that the user provided at least one primary action.
    pub fn validate(&self) -> (r: Result<(), String>)
        ensures
            r is Ok <==> self.has_action(),
            r is Err ==> r->Err_0@ == "no action provided — use -i <image>, -R to restore, -m to map, -r to render, -p to preview, or -d to debug"@,
    {
        if self.image.is_none() && !self.restore && self.map.is_none() && !self.render && !self.preview
            && !self.debug {
            return Err(
                "no action provided — use -i <image>, -R to restore, -m to map, -r to render, -p to preview, or -d to debug".to_string(),
            );
        }
        Ok(())
    }
}

} // verus!
