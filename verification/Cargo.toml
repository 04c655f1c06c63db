[package]
name = "network_semaphore"
version = "0.1.0"
edition = "2021"
publish = false

[dependencies]
bincode = { version = "2", features = ["serde"] }
uuid = { version = "1", features = ["v4", "serde"] }
dashmap = { version = "6", features = ["serde"] }
serde = { version = "1", features = ["derive"] }
serde_json = "1"
tokio = { version = "1", features = ["full"] }
tokio-util = { version = "0.7", features = ["codec"] }
tokio-stream = "0.1"
futures = "0.3"
bytes = "1"
clap = { version = "4", features = ["derive"] }
system_shutdown = "4"
