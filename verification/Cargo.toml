[package]
name = "council"
version = "0.1.0"
edition = "2021"
publish = false

[dependencies]
log = "0.4"
prost = "0.11"
rand = "0.8"
siphasher = "1"
tokio = { version = "1", features = ["macros", "rt", "sync", "time"] }
tokio-stream = { version = "0.1", features = ["sync"] }
tonic = "0.9"
url = "2"
