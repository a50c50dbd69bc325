[package]
name = "arielosbom"
version = "0.1.0"
edition = "2021"
publish = false

[dependencies]
cargo-lock = "*"
cargo_metadata = "*"
chrono = { version = "*", features = ["serde"] }
clap = { version = "*", features = ["derive"] }
semver = { version = "*", features = ["serde"] }
serde = { version = "*", features = ["derive"] }
serde_json = "*"
