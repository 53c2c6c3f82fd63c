[package]
name = "optopodi"
version = "0.1.0"
edition = "2021"
publish = false

[dependencies]
async-trait = "=0.1.92"
chrono = { version = "=0.4.45", default-features = false, features = ["std", "clock"] }
clap = { version = "=4.6.7", features = ["derive"] }
csv = "=1.4.0"
env_logger = "=0.8.4"
fehler = "=1.0.0"
octocrab = "=0.43.0"
serde = { version = "=1.0.229", features = ["derive"] }
serde_json = "=1.0.154"
stable-eyre = "=0.2.2"
tokio = { version = "=1.54.1", features = ["rt-multi-thread", "macros", "fs", "sync"] }
toml = "=0.5.11"
