[package]
name = "dockman"
version = "0.1.0"
edition = "2021"
publish = false

[dependencies]
serde = { version = "1", features = ["derive"] }
serde_json = "1"
anyhow = "1"
dirs = "*"
tokio = { version = "1", default-features = false, features = ["process", "rt", "macros"] }
futures-util = { version = "0.3", default-features = false, features = ["std"] }
