[package]
name = "fxfs"
version = "0.1.0"
edition = "2021"
publish = false

[dependencies]
base64 = "0.22"
chrono = "0.4"
futures = "0.3"
mundane = "0.5"
rand = "0.8"
rustc-hash = "1"
serde_json = "1"
uuid = { version = "1", features = ["v4"] }
zstd = "0.13"
