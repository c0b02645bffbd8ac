[package]
name = "refill"
version = "0.1.0"
edition = "2021"
publish = false

[dependencies]
axum = { version = "0.8", default-features = false, features = ["tokio", "http1", "json"] }
base64 = "0.22"
chrono = "0.4"
dirs = "5"
futures = "0.3"
reqwest = { version = "0.12", default-features = false, features = ["json"] }
serde = { version = "1", features = ["derive"] }
serde_json = "1"
tauri = { version = "2", default-features = false }
tokio = { version = "1", features = ["net", "rt-multi-thread"] }
walkdir = "2"
