[package]
name = "vrrop"
version = "0.1.0"
edition = "2021"
publish = false

[dependencies]
crc = "=3.4.0"
serde = { version = "1", features = ["derive"] }
serde_json = "1"

[dev-dependencies]
bincode = "=1.3.3"
cobs = "=0.5.1"
