[package]
name = "condow"
version = "0.1.0"
edition = "2021"
publish = false

[dependencies]
anyhow = "1"
bytes = "1"
futures = "0.3"
thiserror = "1"
tokio = { version = "1", features = ["rt", "rt-multi-thread", "sync", "time", "fs", "io-util", "macros"] }
url = "2"
rusoto_core = "0.48"
rusoto_s3 = "0.48"
