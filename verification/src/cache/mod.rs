pub mod scheme;
