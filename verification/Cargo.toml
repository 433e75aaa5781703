[package]
name = "picmash"
version = "0.1.0"
edition = "2021"
publish = false

[dependencies]
anyhow = "1"
blake3 = "1"
directories = "6"
image = { version = "0.25", default-features = false, features = ["png", "jpeg", "webp", "gif", "bmp", "tiff"] }
parking_lot = "0.12"
rand = "0.9"
serde = { version = "1", features = ["derive"] }
tempfile = "3"
time = "0.3"
tokio = { version = "1", features = ["sync", "rt", "time"] }
toml = "0.8"
tracing = "0.1"
ts-rs = "11"
ulid = "1"
walkdir = "2"
