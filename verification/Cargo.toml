[package]
name = "github_expander"
version = "0.1.0"
edition = "2021"
publish = false

[dependencies]
dotenvy = "=0.15.7"
env_logger = "=0.11.11"
log = "=0.4.34"
octocrab = "=0.42.1"
serde = { version = "=1.0.229", features = ["derive"] }
serenity = "=0.12.5"
tokio = { version = "=1.53.2", features = ["macros", "rt-multi-thread"] }
