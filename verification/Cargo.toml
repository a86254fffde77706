[package]
name = "haven_core"
version = "0.1.0"
edition = "2021"
publish = false

[dependencies]
sha2 = "0.10"
serde = { version = "1", features = ["derive"] }
serde_json = "1"
rusqlite = { version = "0.31", features = ["bundled", "backup"] }
uuid = { version = "1", features = ["v4"] }
flate2 = "1"
tar = "0.4"

[dev-dependencies]
tempfile = "3"
