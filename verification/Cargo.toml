[package]
name = "syncdir"
version = "0.1.0"
edition = "2021"
publish = false

[dependencies]
sha2 = "*"
chrono = "*"
tokio = { version = "*", features = ["fs", "io-util", "macros", "rt", "sync", "time"] }
futures-util = "*"
async-trait = "*"
rand = "*"
uuid = { version = "*", features = ["v4"] }
notify = "*"
flume = "*"
anyhow = "*"
