[package]
name = "music_dedup"
version = "0.1.0"
edition = "2021"
publish = false

[dependencies]
anyhow = "=1.0.104"
base64 = "=0.13.1"
clap = { version = "=3.2.25", features = ["derive"] }
lofty = "0.8"
ncmdump = "0.2.0"
rust-crypto = "=0.2.36"
serde = { version = "=1.0.229", features = ["derive"] }
serde_json = "=1.0.154"
walkdir = "=2.5.0"

[dev-dependencies]
regex = "=1.13.1"
