[package]
name = "dtop"
version = "1.0.0"
edition = "2021"
publish = false

[dependencies]
anyhow = "1"
bollard = "0.19"
crossterm = { version = "0.28", features = ["event-stream"] }
futures-util = "0.3"
ratatui = "0.29"
serde = { version = "1", features = ["derive"] }
time = { version = "0.3", features = ["parsing"] }
tokio = { version = "1", features = ["full"] }
toml = "0.8"
tracing-subscriber = { version = "0.3", features = ["env-filter"] }
