[package]
name = "rperf"
version = "0.1.0"
edition = "2021"
publish = false

[dependencies]
clap = "*"
csv = "*"
howlong = "*"
serde = { version = "*", features = ["derive"] }
serde_json = "*"
thread-priority = "*"
tokio = { version = "*", features = ["rt-multi-thread", "macros", "net", "io-util", "time"] }
