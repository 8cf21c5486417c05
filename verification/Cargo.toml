[package]
name = "rex_engine"
version = "0.1.0"
edition = "2021"
publish = false

[dependencies]
blake3 = { version = "1", features = ["pure"] }
chrono = "0.4"
uuid = "1"
futures = "0.3"
