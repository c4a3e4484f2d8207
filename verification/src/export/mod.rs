pub mod sequences;
pub mod templates;
pub mod colors_json;
pub mod generate;
pub mod theme;
