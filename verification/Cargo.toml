[package]
name = "compact_vec"
version = "0.1.0"
edition = "2021"
publish = false

[dependencies]
serde = "1"

[dev-dependencies]
rmp-serde = "1"
