[package]
name = "engine_protocol"
version = "0.1.0"
edition = "2021"
publish = false

[dependencies]
base64 = "0.22"
dashmap = "6"
regex = "1"
chrono = { version = "0.4", default-features = false }
http = "0.2"
hyper = { version = "0.14", default-features = false }
futures = "0.3"
pin-project = "1"
tokio = { version = "1", features = ["rt", "sync"] }
serde = { version = "1", features = ["derive"] }
url = "2"
async-trait = "0.1"
