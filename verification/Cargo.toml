[package]
name = "webshotd"
version = "0.1.0"
edition = "2021"
publish = false

[dependencies]
axum = "*"
chromiumoxide = "*"
clap = { version = "*", features = ["derive"] }
futures = "*"
libvips = "*"
serde = { version = "*", features = ["derive"] }
serde_json = "*"
thiserror = "*"
tokio = { version = "*", features = ["full"] }
tokio-util = "*"
tower = "*"
tower-http = { version = "*", features = ["trace", "timeout"] }
tracing = "*"
tracing-subscriber = { version = "*", features = ["env-filter"] }
url = { version = "*", features = ["serde"] }
