[package]
name = "dispatch"
version = "0.1.0"
edition = "2021"
publish = false

[dependencies]
serde_json = "1"
reqwest = { version = "0.12", default-features = false, features = ["blocking"] }
rusqlite = { version = "0.31", features = ["bundled"] }
directories = "5"
