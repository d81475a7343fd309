[package]
name = "activity_roles"
version = "0.1.0"
edition = "2021"
publish = false

[dependencies]
anyhow = "1"
env_logger = "*"
log = "0.4"
mysql = "*"
refinery = { version = "*", features = ["mysql"] }
serde = { version = "1", features = ["derive"] }
serde_yaml = "*"
serenity = "*"
structopt = "0.3"
tokio = { version = "1", features = ["macros", "rt-multi-thread"] }
