[package]
name = "share_clip"
version = "0.1.0"
edition = "2021"
publish = false

[dependencies]
blake3 = "1"
html2text = "*"
serde_json = "1"
serde = { version = "1", features = ["derive"] }
uuid = { version = "1", features = ["v4"] }
chrono = "0.4"
base64 = "0.22"
image = { version = "0.25", default-features = false, features = ["jpeg", "png"] }
toml = "0.8"
if-addrs = "*"
parking_lot = "0.12"
thiserror = "*"
tokio = { version = "1", features = ["rt-multi-thread", "net", "io-util", "time", "sync", "macros"] }
