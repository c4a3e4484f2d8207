//! One error type for every stage of the pipeline.
use vstd::prelude::*;
use vstd::string::StringExecFns;

verus! {

/// Everything that can go wrong while building, caching or exporting a scheme.
/// Paths are carried as their display text.
#[derive(Debug, Clone, PartialEq, Eq)]
pub enum RwalError {
    // Image loading
    ImageNotFound(String),
    EmptyDirectory(String),
    ImageDecodeError(String),
    UnsupportedFormat(String),
    // Color extraction
    NoColorsExtracted,
    BackendFailed(String),
    UnsupportedBackend(String),
    // Cache
    CacheReadError(String, String),
    CacheWriteError(String, String),
    CacheCorrupted(String),
    // Export
    TemplateReadError(String, String),
    TemplateWriteError(String, String),
    ColorsJsonWriteError(String, String),
    SequenceWriteError(String),
    SymlinkFailed(String, String, String),
    // Themes
    ThemeNotFound(String),
    ThemeCorrupted(String),
    // Wallpaper
    WallpaperSetFailed(String),
    NoCompositorDetected,
    // Paths / IO
    HomeDirNotFound,
    CreateDirFailed(String, String),
    IoError(String),
    Custom(String),
}

/// The human-readable text of an error.
pub open spec fn error_text(e: RwalError) -> Seq<char> {
    match e {
        RwalError::ImageNotFound(p) => "Image not found: "@ + p@,
        RwalError::EmptyDirectory(p) => "No valid images found in directory: "@ + p@,
        RwalError::ImageDecodeError(m) => "Failed to decode image: "@ + m@,
        RwalError::UnsupportedFormat(ext) => "Unsupported image format: "@ + ext@,
        RwalError::NoColorsExtracted => "Backend returned no colors — image may be too uniform"@,
        RwalError::BackendFailed(m) => "Color backend failed: "@ + m@,
        RwalError::UnsupportedBackend(n) => "Unknown backend '"@ + n@ + "' — available: kmeans, median_cut"@,
        RwalError::CacheReadError(p, m) => "Could not read cache at "@ + p@ + ": "@ + m@,
        RwalError::CacheWriteError(p, m) => "Could not write cache to "@ + p@ + ": "@ + m@,
        RwalError::CacheCorrupted(p) => "Cache file is corrupted, will regenerate: "@ + p@,
        RwalError::TemplateReadError(p, m) => "Could not read template "@ + p@ + ": "@ + m@,
        RwalError::TemplateWriteError(p, m) => "Could not write rendered template to "@ + p@ + ": "@ + m@,
        RwalError::ColorsJsonWriteError(p, m) => "Could not write colors.json to "@ + p@ + ": "@ + m@,
        RwalError::SequenceWriteError(m) => "Could not write terminal sequences: "@ + m@,
        RwalError::SymlinkFailed(src, dst, m) => "Could not symlink "@ + src@ + " to "@ + dst@ + ": "@ + m@,
        RwalError::ThemeNotFound(n) => "Theme not found: "@ + n@,
        RwalError::ThemeCorrupted(n) => "Theme file is corrupted: "@ + n@,
        RwalError::WallpaperSetFailed(m) => "Failed to set wallpaper: "@ + m@,
        RwalError::NoCompositorDetected => "Could not detect a supported compositor (sway, feh, nitrogen)"@,
        RwalError::HomeDirNotFound => "Could not resolve home directory"@,
        RwalError::CreateDirFailed(p, m) => "Could not create directory "@ + p@ + ": "@ + m@,
        RwalError::IoError(m) => "IO error: "@ + m@,
        RwalError::Custom(m) => m@,
    }
}

pub(crate) fn joined(a: &str, b: &str) -> (s: String)
    ensures
        s@ == a@ + b@,
{
    let mut s = a.to_owned();
    s.append(b);
    s
}

pub(crate) fn joined3(a: &str, b: &str, c: &str) -> (s: String)
    ensures
        s@ == a@ + b@ + c@,
{
    let mut s = a.to_owned();
    s.append(b);
    s.append(c);
    s
}

pub(crate) fn joined4(a: &str, b: &str, c: &str, d: &str) -> (s: String)
    ensures
        s@ == a@ + b@ + c@ + d@,
{
    let mut s = a.to_owned();
    s.append(b);
    s.append(c);
    s.append(d);
    s
}

impl RwalError {
    /// The message shown to the user for this error.
    pub fn message(&self) -> (s: String)
        ensures
            s@ == error_text(*self),
    {
        match self {
            RwalError::ImageNotFound(p) => joined("Image not found: ", p.as_str()),
            RwalError::EmptyDirectory(p) => joined("No valid images found in directory: ", p.as_str()),
            RwalError::ImageDecodeError(m) => joined("Failed to decode image: ", m.as_str()),
            RwalError::UnsupportedFormat(e) => joined("Unsupported image format: ", e.as_str()),
            RwalError::NoColorsExtracted => "Backend returned no colors — image may be too uniform".to_owned(),
            RwalError::BackendFailed(m) => joined("Color backend failed: ", m.as_str()),
            RwalError::UnsupportedBackend(n) => joined3("Unknown backend '", n.as_str(), "' — available: kmeans, median_cut"),
            RwalError::CacheReadError(p, m) => joined4("Could not read cache at ", p.as_str(), ": ", m.as_str()),
            RwalError::CacheWriteError(p, m) => joined4("Could not write cache to ", p.as_str(), ": ", m.as_str()),
            RwalError::CacheCorrupted(p) => joined("Cache file is corrupted, will regenerate: ", p.as_str()),
            RwalError::TemplateReadError(p, m) => joined4("Could not read template ", p.as_str(), ": ", m.as_str()),
            RwalError::TemplateWriteError(p, m) => joined4("Could not write rendered template to ", p.as_str(), ": ", m.as_str()),
            RwalError::ColorsJsonWriteError(p, m) => joined4("Could not write colors.json to ", p.as_str(), ": ", m.as_str()),
            RwalError::SequenceWriteError(m) => joined("Could not write terminal sequences: ", m.as_str()),
            RwalError::SymlinkFailed(src, dst, m) => {
                let mut s = joined4("Could not symlink ", src.as_str(), " to ", dst.as_str());
                s.append(": ");
                s.append(m.as_str());
                s
            },
            RwalError::ThemeNotFound(n) => joined("Theme not found: ", n.as_str()),
            RwalError::ThemeCorrupted(n) => joined("Theme file is corrupted: ", n.as_str()),
            RwalError::WallpaperSetFailed(m) => joined("Failed to set wallpaper: ", m.as_str()),
            RwalError::NoCompositorDetected => "Could not detect a supported compositor (sway, feh, nitrogen)".to_owned(),
            RwalError::HomeDirNotFound => "Could not resolve home directory".to_owned(),
            RwalError::CreateDirFailed(p, m) => joined4("Could not create directory ", p.as_str(), ": ", m.as_str()),
            RwalError::IoError(m) => joined("IO error: ", m.as_str()),
            RwalError::Custom(m) => m.clone(),
        }
    }
}

} // verus!
