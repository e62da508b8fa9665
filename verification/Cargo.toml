[package]
name = "ksight"
version = "0.1.0"
edition = "2021"
publish = false

[dependencies]
anyhow = "1"
aya = "0.13"
aya-log = "0.2"
clap = { version = "4", features = ["derive"] }
crossterm = { version = "0.28", features = ["event-stream"] }
env_logger = "0.11"
futures = "0.3"
log = "0.4"
ratatui = "0.29"
tokio = { version = "1", features = ["macros", "rt-multi-thread", "time", "net"] }
