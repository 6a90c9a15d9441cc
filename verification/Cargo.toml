[package]
name = "windows_redirector"
version = "0.1.0"
edition = "2021"
publish = false

[dependencies]
anyhow = "*"
bincode = "=2.0.1"
env_logger = "*"
log = "*"
lru_time_cache = "=0.11.11"
tokio = { version = "*", features = ["rt", "net", "sync", "io-util", "macros"] }
windivert = "*"
