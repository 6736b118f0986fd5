[package]
name = "transports"
version = "0.1.0"
edition = "2021"
publish = false

[dependencies]
futures-channel = "0.3"
serde = "1"
serde_json = { version = "1", features = ["raw_value"] }
