[package]
name = "float_protocols"
version = "0.4.0"
edition = "2021"
publish = false

[dependencies]
bincode = "1"
bytes = "1"
crc = "3"
crc32fast = "1"
crossbeam-channel = "0.5"
dashmap = "5"
flate2 = "1"
hex = "0.4"
hmac = "0.12"
parking_lot = "0.12"
rand = "0.8"
rcgen = { version = "0.13", features = ["pem"] }
rppal = "0.14"
serde = { version = "1", features = ["derive"] }
serde_json = "1"
serialport = { version = "4", default-features = false }
sha2 = "0.10"
socketcan = "1.7"
tokio = { version = "1", features = ["full"] }
tracing = "0.1"
tracing-subscriber = { version = "0.3", features = ["env-filter"] }
zstd = "0.13"
