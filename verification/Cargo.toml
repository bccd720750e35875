[package]
name = "sani"
version = "0.1.0"
edition = "2021"
publish = false

[dependencies]
rusqlite = { version = "*", features = ["bundled"] }
chrono = "*"
walkdir = "*"
serde = { version = "*", features = ["derive"] }
serde_yaml = "*"
anyhow = "*"
exitcode = "*"
