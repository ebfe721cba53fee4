[package]
name = "mongo_telemetry"
version = "0.1.0"
edition = "2021"
publish = false

[dependencies]
lazy_static = "1"
mongodb = { version = "2", default-features = false, features = ["sync"] }
serde = { version = "1", features = ["derive"] }
