[package]
name = "sonik"
version = "0.1.0"
edition = "2021"
publish = false

[dependencies]
anyhow = "1"
bincode = "1.3"
blake3 = "1"
chrono = "0.4"
clap = { version = "4", features = ["derive"] }
comfy-table = "7"
dirs = "5"
indicatif = "0.17"
notify = "6"
notify-rust = "4"
once_cell = "1"
sd-notify = "0.4"
serde = { version = "1", features = ["derive"] }
serde_json = "1"
serde_yaml = "0.9"
shellexpand = "3"
tracing = "0.1"
tracing-subscriber = { version = "0.3", features = ["env-filter"] }
users = "0.11"
walkdir = "2"

[dev-dependencies]
tempfile = "3"
