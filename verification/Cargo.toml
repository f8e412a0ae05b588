[package]
name = "collector"
version = "0.1.0"
edition = "2021"
publish = false

[dependencies]
failure = "0.1"
lazy_static = "1"
log = "0.4"
serde = { version = "1", features = ["derive"] }
serde_json = "1"
tempdir = "0.3"
