[package]
name = "enum_bitset"
version = "0.1.0"
edition = "2021"
publish = false

[dependencies]
serde = "1.0"

[dev-dependencies]
serde_json = "1.0"
