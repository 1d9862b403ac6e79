[package]
name = "hn_videos"
version = "0.1.0"
edition = "2021"
publish = false

[dependencies]
serde_json = "*"
anyhow = "*"
pbr = "*"
reqwest = { version = "*", default-features = false, features = ["json"] }
tokio = { version = "*", features = ["full"] }
tokio-rusqlite = "*"
tracing = "*"
tracing-subscriber = "*"
