[package]
name = "media_archiver"
version = "0.1.0"
edition = "2021"
publish = false

[dependencies]
anyhow = "=1.0.104"
chrono = "=0.4.45"
filetime = "=0.2.29"
futures-util = "=0.3.34"
image = { version = "=0.25.10", default-features = false, features = ["png", "jpeg", "gif", "webp", "bmp"] }
matrix-sdk = { version = "=0.14.0", default-features = false, features = ["rustls-tls"] }
mime = "=0.3.17"
reqwest = { version = "=0.12.28", default-features = false, features = ["json", "stream", "rustls-tls"] }
rusqlite = { version = "=0.41.1", features = ["bundled"] }
serde = { version = "=1.0.229", features = ["derive"] }
serde_json = "=1.0.154"
sha2 = "=0.10.9"
tokio = { version = "=1.54.1", features = ["full"] }
urlencoding = "=2.1.3"
uuid = { version = "=1.29.0", features = ["v4"] }
