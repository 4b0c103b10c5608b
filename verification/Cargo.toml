[package]
name = "bones_ecs"
version = "0.1.0"
edition = "2021"
publish = false

[dependencies]
bitset-core = "0.1"
serde = "1"

[dev-dependencies]
serde_json = "1"
bincode = "1"
