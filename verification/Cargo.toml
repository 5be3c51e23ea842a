[package]
name = "framework"
version = "0.1.0"
edition = "2021"
publish = false

[dependencies]
bincode = "1"
bytes = "1"
futures = "0.3"
serde = { version = "1", features = ["derive"] }
tarpc = "*"
thiserror = "1"
tokio = { version = "1", features = ["io-util", "macros", "rt", "sync"] }
web-transport = "*"
