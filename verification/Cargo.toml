[package]
name = "garage_store"
version = "0.1.0"
edition = "2021"
publish = false

[dependencies]
hex = "=0.4.3"
sha2 = "=0.10.9"
percent-encoding = "=2.3.2"
sled = "=0.34.7"
tokio = { version = "=1.54.1", features = ["fs", "io-util", "sync", "time", "macros", "rt-multi-thread"] }
hyper = { version = "=0.14.32", features = ["full"] }
futures = "=0.3.34"
arc-swap = "=1.9.3"
async-trait = "=0.1.92"
serde = { version = "=1.0.229", features = ["derive"] }
serde_json = "1"
