[package]
name = "blockandfocus"
version = "0.1.0"
edition = "2021"
publish = false

[dependencies]
chrono = "*"
rand = "0.8"
uuid = { version = "*", features = ["v4"] }
tokio = { version = "*", features = ["net", "io-util", "rt-multi-thread", "macros", "signal", "sync", "time"] }
hickory-proto = "0.25"
hickory-resolver = "0.25"
serde = { version = "*", features = ["derive"] }
serde_json = "*"
toml = "*"
