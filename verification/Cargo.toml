[package]
name = "golinks"
version = "0.1.0"
edition = "2021"
publish = false

[dependencies]
fuse-rust = "0.3"
url = "2"
rocket = { version = "0.5", features = ["json"] }
rocket_db_pools = { version = "0.2", features = ["sqlx_sqlite"] }
sqlx = { version = "0.7", default-features = false, features = ["migrate", "sqlite"] }
tracing = "0.1"
tracing-subscriber = { version = "0.3", features = ["env-filter"] }
tracing-tree = "0.2"
tracing-opentelemetry = "0.17"
opentelemetry = { version = "0.17", features = ["rt-tokio"] }
opentelemetry-jaeger = { version = "0.16", features = ["rt-tokio"] }
fern = "0.6"
chrono = "0.4"
log = "0.4"
