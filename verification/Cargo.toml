[package]
name = "lore_weekly"
version = "0.1.0"
edition = "2021"
publish = false

[dependencies]
anyhow = "1"
chrono = "0.4"
sha2 = "0.10"
pulldown-cmark = { version = "0.13", default-features = false, features = ["html"] }
walkdir = "2"
serde = { version = "1", features = ["derive"] }
serde_json = "1"
toml = "0.8"
clap = { version = "4", features = ["derive"] }
regex = "1"
