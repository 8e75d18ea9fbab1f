[package]
name = "archipelapal"
version = "0.1.0"
edition = "2021"
publish = false

[dependencies]
anyhow = "*"
clap = { version = "*", features = ["derive", "env"] }
dotenvy = "*"
env_logger = "*"
log = "*"
rand = "=0.8.8"
serde = { version = "*", features = ["derive"] }
serde_json = "*"
tokio = { version = "*", features = ["full"] }
