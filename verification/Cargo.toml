[package]
name = "continuous_planning"
version = "0.1.0"
edition = "2021"
publish = false

[dependencies]
anyhow = "=1.0.104"
chrono = "=0.4.45"
ratatui = { version = "=0.29.0", default-features = false, features = ["crossterm"] }
schemars = "=0.8.22"
serde = { version = "=1.0.229", features = ["derive"] }
serde_json = "=1.0.154"
sqlx = { version = "=0.8.6", default-features = false, features = ["runtime-tokio", "sqlite"] }
textwrap = "=0.16.4"
tokio = { version = "=1.54.1", features = ["rt", "sync", "time"] }
tracing = "=0.1.44"
ts-rs = "=11.1.0"
unicode-segmentation = "=1.13.3"
unicode-width = "=0.2.0"
