[package]
name = "nfsserve"
version = "0.10.2"
edition = "2021"
publish = false

[dependencies]
anyhow = "1"
async-trait = "0.1"
filetime = "0.2"
tokio = { version = "1", features = ["net", "io-util", "sync", "fs", "rt", "rt-multi-thread", "macros"] }
tracing = "0.1"
tracing-subscriber = "0.3"
