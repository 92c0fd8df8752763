[package]
name = "rust-pubsub-lib"
version = "10.0.0"
edition = "2021"
publish = false

[dependencies]
rdkafka = "*"
redis = { version = "*", features = ["aio", "connection-manager", "streams", "tokio-comp"] }
serde_json = "1"
tokio = { version = "1", features = ["io-util", "macros", "net", "rt-multi-thread", "sync", "time"] }
tokio-stream = { version = "0.1", features = ["sync"] }
tokio-util = "0.7"
tracing = "0.1"
uuid = { version = "1", features = ["v4"] }
