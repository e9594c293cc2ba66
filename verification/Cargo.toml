[package]
name = "sweet"
version = "0.1.0"
edition = "2021"
publish = false

[dependencies]
async-trait = "0.1"
base64 = "0.22"
dirs = "6"
dunce = "1"
futures-util = "0.3"
globset = "0.4"
ignore = "0.4"
regex = "1"
reqwest = { version = "0.12", default-features = false, features = ["json", "stream", "rustls-tls"] }
rusqlite = { version = "0.32", features = ["bundled"] }
serde = { version = "1", features = ["derive"] }
serde_json = "1"
sqlite-vec = "0.1"
thiserror = "2"
tokio = { version = "1", features = ["fs", "process", "rt", "macros"] }
tracing = "0.1"
uuid = { version = "1", features = ["v7"] }
which = "7"
