[package]
name = "mev_bot"
version = "0.1.0"
edition = "2021"
publish = false

[dependencies]
ethers = { version = "=2.0.14", default-features = false, features = ["rustls"] }
tokio = { version = "1", features = ["rt-multi-thread", "time", "sync"] }
serde_json = "1"
tracing = { version = "0.1", default-features = false, features = ["std"] }
tracing-subscriber = { version = "0.3", default-features = false, features = ["fmt", "std"] }
