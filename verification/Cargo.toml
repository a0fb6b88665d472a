[package]
name = "rnotifyd"
version = "0.1.0"
edition = "2021"
publish = false

[dependencies]
chrono = "*"
tokio = { version = "*", features = ["rt-multi-thread", "time", "signal", "sync", "macros"] }
futures = "*"
getopts = "*"
env_logger = "*"
log = "*"
serde = { version = "*", features = ["derive"] }
serde_yaml = "*"
toml = "*"
