[package]
name = "robin_lib"
version = "0.1.0"
edition = "2021"
publish = false

[dependencies]
serde = { version = "1", features = ["derive"] }
serde_json = "1"
dirs = "5"
hound = "3"
tokio = { version = "1", features = ["process", "time", "sync", "rt", "macros"] }
futures-util = "0.3"
reqwest = { version = "0.12", default-features = false, features = ["json", "rustls-tls"] }
cpal = "0.15"
rodio = "0.19"
whisper-rs = "0.13"
