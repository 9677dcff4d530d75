[package]
name = "hqm_server"
version = "0.1.0"
edition = "2021"
publish = false

[dependencies]
bytes = "1"
nalgebra = "0.29"
reqwest = { version = "0.11", default-features = false }
tokio = { version = "1", features = ["fs", "io-util", "macros", "net", "rt-multi-thread", "sync", "time"] }
tracing = "0.1"
