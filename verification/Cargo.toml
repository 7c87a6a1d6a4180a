[package]
name = "moth"
version = "0.1.0"
edition = "2021"
publish = false

[dependencies]
anyhow = "1"
chrono = { version = "0.4", default-features = false, features = ["std"] }
clap = { version = "4", features = ["derive"] }
clap_complete = "4"
colored = "2"
git2 = { version = "0.19", default-features = false }
rand = "0.8"
serde = { version = "1", features = ["derive"] }
serde_yaml = "0.9"
