[package]
name = "skyline_update"
version = "0.1.0"
edition = "2021"
publish = false

[dependencies]
semver = "1"
tar = "0.4"
serde = { version = "1", features = ["derive"] }
serde_json = "1"
toml = "0.5"
walkdir = "2"
notify = "4"
crossbeam = "0.8"
