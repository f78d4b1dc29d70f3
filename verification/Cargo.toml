[package]
name = "crsqlite"
version = "0.1.0"
edition = "2021"
publish = false

[dev-dependencies]
rusqlite = { version = "*", features = ["bundled", "functions"] }
