[package]
name = "homework_manager"
version = "0.4.0"
edition = "2021"
publish = false

[dependencies]
base64 = "=0.22.1"
chrono = "=0.4.45"
keyring = { version = "=3.6.3", features = ["windows-native", "apple-native", "linux-native"] }
open = "=5.4.5"
reqwest = { version = "=0.12.28", default-features = false, features = ["json", "multipart", "rustls-tls"] }
rusqlite = { version = "=0.32.1", features = ["bundled", "backup"] }
serde = { version = "=1.0.229", features = ["derive"] }
serde_json = "=1.0.154"
tokio = { version = "=1.54.1", features = ["process", "io-util", "time", "rt", "macros"] }
uuid = { version = "=1.29.0", features = ["v4"] }
walkdir = "=2.5.0"
