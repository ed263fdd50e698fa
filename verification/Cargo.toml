[package]
name = "event_fields"
version = "0.1.0"
edition = "2021"
publish = false

[dependencies]
string_cache = { version = "0.8", default-features = false }
serde = { version = "1", features = ["derive"] }
serde_json = "1"
tokio = { version = "1", features = ["process", "io-util", "rt", "macros"] }
