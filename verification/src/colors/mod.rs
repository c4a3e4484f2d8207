pub mod types;
pub mod adjust;
pub mod palette;
pub mod semantic;
pub mod extractor;
