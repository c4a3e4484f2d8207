//! Accessible terminal color schemes from images: palette extraction,
//! slot assignment, and the text formats that carry a scheme to other tools.
pub mod text;
pub mod error;
pub mod colors;
pub mod backends;
pub mod export;
pub mod paths;
pub mod cli;
pub mod palette_generator;
pub mod cache;
pub mod input;
pub mod theme_loader;
pub mod pipeline;
pub mod wallpaper;
pub mod image_loader;
