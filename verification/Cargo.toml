[package]
name = "docstamp"
version = "0.1.0"
edition = "2021"
publish = false

[dependencies]
axum = "*"
chrono = "*"
http = "*"
image = "*"
rand = "*"
rusttype = "*"
serde = { version = "*", features = ["derive"] }
serde_json = "*"
thiserror = "*"
tokio = { version = "*", features = ["macros", "rt-multi-thread", "net"] }
tower-http = { version = "*", features = ["trace", "compression-gzip", "set-header"] }
tracing = "*"
tracing-subscriber = "*"
