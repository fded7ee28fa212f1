[package]
name = "package_worker"
version = "0.1.0"
edition = "2021"
publish = false

[dependencies]
chrono = { version = "=0.4.45", features = ["serde"] }
hyper = "=0.12.36"
hyper-tls = "=0.3.2"
quick-xml = "=0.13.3"
serde = { version = "1", features = ["derive"] }
slog = "=2.8.2"
tokio = "=0.1.22"
tokio-process = "=0.2.5"
