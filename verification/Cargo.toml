[package]
name = "relentless_revenge"
version = "0.1.0"
edition = "2021"
publish = false
rust-version = "1.95"

[dependencies]
bevy = { version = "=0.18.1", default-features = false, features = ["std"] }
turborand = "=0.10.1"
serde = { version = "=1.0.229", features = ["derive"] }
serde_yaml = "=0.9.34"
dirs = "=7.0.0"
