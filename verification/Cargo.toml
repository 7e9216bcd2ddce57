[package]
name = "telos_agent"
version = "0.1.0"
edition = "2021"
publish = false

[dependencies]
serde = { version = "1", features = ["derive"] }
serde_json = "1"
serde_yaml = "0.9"
glob = "0.3"
semver = { version = "1", features = ["serde"] }
tiktoken-rs = "*"
tokio = { version = "1", features = ["rt", "rt-multi-thread", "macros", "sync", "time", "process", "io-util", "fs", "net"] }
async-trait = "0.1"
async-stream = "0.3"
futures-core = "0.3"
futures-util = "0.3"
axum = "0.7"
fs2 = "0.4"
url = "2"
reqwest = { version = "0.12", default-features = false, features = ["blocking", "json"] }
tracing = "0.1"
