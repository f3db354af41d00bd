[package]
name = "what_do"
version = "0.1.0"
edition = "2021"
publish = false

[dependencies]
ammonia = "=3.3.4"
anyhow = "=1.0.104"
axum = "=0.6.20"
itertools = "=0.11.0"
linked-hash-map = "=0.5.6"
ordinal = "=0.3.2"
random-string = "=1.1.0"
serde = { version = "=1.0.229", features = ["derive"] }
shuttle-axum = "*"
shuttle-runtime = "*"
tokio = { version = "=1.54.1", features = ["sync", "rt", "macros"] }
tower = "=0.4.13"
tower-http = { version = "=0.4.4", features = ["add-extension"] }
tracing = "=0.1.44"
tracing-panic = "*"
uuid = { version = "=1.29.0", features = ["v4"] }
