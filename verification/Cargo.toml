[package]
name = "shiwake"
version = "0.1.0"
edition = "2021"
publish = false

[dependencies]
clap = { version = "4", features = ["derive"] }
git2 = { version = "0.20", default-features = false }
globset = "0.4"
serde = { version = "1", features = ["derive"] }
serde_json = "1"
toml = "0.9"
