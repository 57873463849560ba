[package]
name = "preset_store"
version = "0.1.0"
edition = "2021"
publish = false

[dependencies]
rusqlite = { version = "*", features = ["bundled"] }
chrono = "*"
uuid = { version = "*", features = ["v4"] }
