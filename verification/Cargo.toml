[package]
name = "onyx"
version = "0.1.0"
edition = "2021"
publish = false

[dependencies]
anyhow = "1"
base32 = "0.5"
base64 = "0.22"
blake2 = "0.10"
clap = { version = "4", features = ["derive", "env"] }
futures = "0.3"
image = { version = "0.25", default-features = false, features = ["jpeg", "png", "webp", "tiff", "bmp"] }
infer = "0.19"
rusqlite = { version = "0.32", features = ["bundled"] }
serde_bytes = "0.11"
tokio = { version = "1", features = ["full"] }
tracing = "0.1"
tracing-subscriber = { version = "0.3", features = ["env-filter"] }
zeroize = "1"
