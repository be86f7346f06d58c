[package]
name = "arb_scanner"
version = "0.1.0"
edition = "2021"
publish = false

[dependencies]
dashmap = "=6.2.1"
serde_json = "=1.0.154"
serde = { version = "=1.0.229", features = ["derive"] }
tokio = { version = "=1.54.1", features = ["full"] }
tokio-tungstenite = "=0.30.0"
futures-util = "=0.3.34"
reqwest = { version = "=0.13.5", default-features = false, features = ["json"] }
tracing = "=0.1.44"
thiserror = "=2.0.21"
tracing-subscriber = { version = "*", features = ["env-filter"] }
hdrhistogram = { version = "*", default-features = false }
axum = "*"
sqlx = { version = "*", default-features = false, features = ["runtime-tokio", "sqlite"] }
ratatui = "*"
crossterm = "*"
