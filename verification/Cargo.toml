[package]
name = "qbench"
version = "0.1.0"
edition = "2021"
publish = false

[dependencies]
anyhow = "1"
async-compression = { version = "0.4", default-features = false, features = ["tokio", "gzip"] }
async-trait = "0.1"
blake3 = "1"
bytes = "1"
chrono = "=0.4.45"
clap = { version = "4", features = ["derive", "env"] }
flume = "0.11"
futures-util = { version = "0.3", features = ["io"] }
rayon = "1"
reqwest = { version = "0.12", default-features = false, features = ["json", "stream"] }
serde = { version = "1", features = ["derive"] }
serde_json = "=1.0.151"
tokio = { version = "1", features = ["rt-multi-thread", "macros", "fs", "io-util", "time"] }
tokio-stream = "0.1"
tokio-util = { version = "0.7", features = ["compat"] }
tracing = "0.1"
tracing-subscriber = "0.3"
