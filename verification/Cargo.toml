[package]
name = "vanyline_sandbox"
version = "0.1.0"
edition = "2021"
publish = false

[dependencies]
anyhow = "1"
axum = "0.8"
axum-server = { version = "*", features = ["tls-rustls"] }
clap = { version = "4", features = ["derive", "env"] }
jsonwebtoken = "9"
k8s-openapi = { version = "*", features = ["latest"] }
kube = { version = "*", default-features = false, features = ["client", "config", "rustls-tls"] }
metrics = "*"
metrics-exporter-prometheus = { version = "*", default-features = false }
opentelemetry = "*"
opentelemetry-otlp = { version = "*", default-features = false, features = ["grpc-tonic", "trace"] }
opentelemetry_sdk = { version = "*", features = ["rt-tokio"] }
reqwest = { version = "0.12", default-features = false, features = ["json", "rustls-tls"] }
serde = { version = "1", features = ["derive"] }
serde_json = "1"
thiserror = "2"
tokio = { version = "1", features = ["full"] }
tower-http = { version = "*", features = ["trace"] }
tracing = "0.1"
tracing-opentelemetry = "*"
tracing-subscriber = { version = "0.3", features = ["env-filter"] }
