[package]
name = "cortex"
version = "0.1.0"
edition = "2021"
publish = false

[dependencies]
serde_json = "=1.0.151"
uuid = { version = "=1.27.0", features = ["v4"] }
chrono = "=0.4.45"
chinese-lunisolar-calendar = "=0.2.5"
hound = "=3.5.1"
html2md = "=0.2.17"
serde = { version = "=1.0.229", features = ["derive"] }
anyhow = "=1.0.104"
tokio = { version = "=1.53.2", features = ["rt-multi-thread", "macros", "time", "sync", "fs", "io-util", "process"] }
reqwest = { version = "=0.12.28", default-features = false, features = ["json", "rustls-tls", "multipart"] }
sled = "=0.34.7"
toml = "=1.1.6"
feed-rs = "=3.0.0"
