[package]
name = "pebble"
version = "0.1.0"
edition = "2021"
publish = false

[dependencies]
serde = { version = "1", features = ["derive"] }
serde_json = "1"
rusqlite = { version = "*", features = ["bundled"] }
tracing = "0.1"

[dev-dependencies]
tempfile = "3"
