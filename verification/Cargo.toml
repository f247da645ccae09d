[package]
name = "odss2dash"
version = "0.1.0"
edition = "2021"
publish = false

[dependencies]
serde = { version = "*", features = ["derive"] }
serde_json = "*"
toml = "*"
dotenv = "*"
clap = { version = "*", features = ["derive"] }
env_logger = "*"
log = "*"
ureq = { version = "*", features = ["json"] }
sysinfo = "*"
axum = "*"
tokio = { version = "*", features = ["full"] }
humantime-serde = "*"
