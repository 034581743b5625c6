[package]
name = "vivaldi_history_extractor"
version = "0.1.0"
edition = "2021"
publish = false

[dependencies]
chrono = "*"
rusqlite = { version = "*", features = ["bundled"] }
clap = { version = "*", features = ["derive"] }
directories = "*"

[dev-dependencies]
serde_json = "*"
