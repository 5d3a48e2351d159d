[package]
name = "kwatcher"
version = "0.1.0"
edition = "2021"
publish = false

[dependencies]
tokio = { version = "1", features = ["sync", "rt-multi-thread", "macros", "time"] }
tokio-stream = { version = "0.1", features = ["sync"] }
serde = { version = "1", features = ["derive"] }
serde_json = "1"
serde_yaml = "0.9"
base64 = "0.13"
reqwest = { version = "0.11", default-features = false, features = ["rustls-tls", "stream"] }
actix-web = { version = "4", default-features = false, features = ["macros"] }
backoff = { version = "0.4", features = ["tokio"] }
url = "2"
dirs = "4"
