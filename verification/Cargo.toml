[package]
name = "pumpkin"
version = "0.1.0"
edition = "2021"
publish = false

[dependencies]
uuid = { version = "=1.29.0", features = ["v3", "v4", "serde"] }
sha1 = "=0.11.0"
hex = "=0.4.3"
flate2 = "=1.1.10"
image = { version = "=0.25.10", default-features = false, features = ["png"] }
serde = { version = "=1.0.229", features = ["derive"] }
serde_json = "=1.0.154"
time = { version = "=0.3.55", features = ["local-offset"] }
tokio = { version = "=1.54.1", features = ["full"] }
tokio-util = "=0.7.20"
eframe = { version = "=0.37.0", default-features = false, features = ["glow", "default_fonts", "x11"] }
sysinfo = { version = "=0.40.1", default-features = false, features = ["system"] }
tracing = "=0.1.44"
tracing-subscriber = "=0.3.23"
axum = { version = "=0.8.9", default-features = false, features = ["http1", "tokio"] }
