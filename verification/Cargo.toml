[package]
name = "rwal"
version = "0.1.0"
edition = "2021"
publish = false

[dependencies]
rand = "=0.8.8"
rayon = "=1.12.0"
sha1 = "=0.10.7"
image = { version = "=0.24.9", default-features = false, features = ["png", "jpeg", "gif", "webp", "tiff"] }
palette = "=0.7.7"
serde = { version = "=1.0.229", features = ["derive"] }
serde_json = "=1.0.154"
toml = "=0.8.23"
clap = { version = "=4.6.7", features = ["derive"] }
dirs = "=5.0.1"
anyhow = "=1.0.104"
log = "=0.4.35"
