[package]
name = "balance_checker"
version = "0.1.0"
edition = "2021"
publish = false

[dependencies]
base64 = "*"
spl-token = "*"
tokio = { version = "*", features = ["full"] }
clap = { version = "*", features = ["derive"] }
anyhow = "*"
reqwest = { version = "*", features = ["json"] }
serde_json = "*"
