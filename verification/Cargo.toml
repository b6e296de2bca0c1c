[package]
name = "ruvsim"
version = "0.1.0"
edition = "2021"
publish = false

[dependencies]
num-traits = "=0.2.19"
regex = "=1.13.1"
regex-syntax = "=0.8.11"
log = "=0.4.35"
env_logger = "=0.11.11"
serde = { version = "=1.0.229", features = ["derive"] }
axum = { version = "=0.7.9", features = ["macros"] }
tokio = { version = "=1.54.1", features = ["full"] }
tower-http = { version = "=0.5.2", features = ["cors", "trace"] }
tracing-subscriber = { version = "=0.3.23", features = ["env-filter"] }
utoipa = { version = "=4.2.3", features = ["axum_extras", "uuid"] }
utoipa-swagger-ui = { version = "=7.1.0", features = ["axum"] }
uuid = { version = "=1.29.0", features = ["v4", "serde"] }
pyo3 = { version = "=0.22.6" }
