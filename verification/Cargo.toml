[package]
name = "file_sink"
version = "0.1.0"
edition = "2021"
publish = false

[dependencies]
tokio = { version = "1", features = ["fs", "io-util", "macros", "rt-multi-thread", "sync", "time"] }
bytes = "1"
chrono = "0.4"
async-compression = { version = "*", features = ["tokio", "gzip"] }
tokio-util = { version = "0.7", features = ["codec"] }
triggered = "0.1"
futures = "0.3"
tracing = "0.1"
thiserror = "*"
prost = "*"
helium-crypto = "*"
