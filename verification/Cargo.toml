[package]
name = "lspd"
version = "0.1.0"
edition = "2021"
publish = false

[dependencies]
anyhow = "1"
async-lsp = "0.2"
clap = { version = "4", features = ["derive"] }
serde = { version = "1", features = ["derive"] }
serde_json = "1"
tokio = { version = "1", features = ["full"] }
tokio-util = { version = "0.7", features = ["compat"] }
tower = "0.5"
