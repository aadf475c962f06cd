[package]
name = "extt-core"
version = "0.1.0"
edition = "2021"
publish = false

[dependencies]
gray_matter = "0.2"
serde_yaml = "0.9"
serde_json = "1"
serde = { version = "1", features = ["derive"] }
walkdir = "2"
rusqlite = { version = "*", features = ["bundled"] }
anyhow = "1"
clap = { version = "4", features = ["derive"] }
confy = "*"
dirs = "*"

[dev-dependencies]
tempfile = "3"
