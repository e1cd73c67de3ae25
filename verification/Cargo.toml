[package]
name = "ytdlp_ui"
version = "0.1.0"
edition = "2021"
publish = false

[dependencies]
uuid = { version = "1", features = ["v4"] }
chrono = "0.4"
base64 = "0.22"
aes-gcm = "0.10"
serde = { version = "1", features = ["derive"] }
serde_json = "1"
tokio = { version = "1", features = ["rt-multi-thread", "macros", "sync", "time", "process", "io-util"] }
reqwest = { version = "0.12", default-features = false, features = ["json"] }
tokio-tungstenite = "*"
futures-util = "0.3"
rusqlite = { version = "*", features = ["bundled"] }
