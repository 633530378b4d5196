[package]
name = "wet_codec"
version = "0.1.0"
edition = "2021"
publish = false

[dependencies]
serde_json = { version = "1.0", features = ["preserve_order", "float_roundtrip"] }
