[package]
name = "argusflow_runtime"
version = "0.1.0"
edition = "2021"
publish = false

[dependencies]
serde = { version = "1", features = ["derive"] }
serde_json = "1"
thiserror = "2"
tokio = { version = "1", features = ["rt-multi-thread", "macros", "sync", "time", "process", "io-util"] }
async-trait = "0.1"
futures-util = "0.3"
uuid = { version = "1", features = ["v4"] }
