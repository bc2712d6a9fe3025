[package]
name = "alaric"
version = "0.1.0"
edition = "2021"
publish = false

[dependencies]
snow = "*"
tokio = { version = "*", features = ["rt-multi-thread", "net", "io-util", "sync", "time", "signal", "macros"] }

[dev-dependencies]
serde_json = "*"
