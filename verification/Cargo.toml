[package]
name = "dupfinder"
version = "0.1.0"
edition = "2021"
publish = false

[dependencies]
globset = "0.4"
blake3 = "1"
dirs = "5"
chrono = "0.4"
serde = { version = "1", features = ["derive"] }
serde_json = "1"
anyhow = "1"
thiserror = "1"
clap = { version = "4", features = ["derive"] }
walkdir = "2"
rayon = "1"
trash = "5"
indicatif = "0.17"
ratatui = "0.29"
crossterm = "0.28"
image = "0.25"
image_hasher = "3"
