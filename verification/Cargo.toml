[package]
name = "oxmon"
version = "0.1.0"
edition = "2021"
publish = false

[dependencies]
uuid = { version = "1", features = ["v5"] }
tokio = { version = "1", features = ["full"] }
surge-ping = "0.8"
chrono = "0.4"
anyhow = "1"
clap = { version = "4", features = ["derive"] }
serde = { version = "1", features = ["derive"] }
serde_json = "1"
