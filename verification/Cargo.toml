[package]
name = "orizuru"
version = "0.1.0"
edition = "2021"
publish = false

[dependencies]
redis = "0.23"
rmp-serde = "1"
serde = { version = "1", features = ["derive"] }
