[package]
name = "matrix_ircd"
version = "0.1.0"
edition = "2021"
publish = false

[dependencies]
futures = "0.3"
hyper = "0.13"
hyper-tls = "0.4"
quick-error = "1"
rand = "0.7"
ruma-client = "0.4"
serde = { version = "1", features = ["derive"] }
serde_json = { version = "1", features = ["raw_value"] }
tokio = { version = "0.2", features = ["full"] }
url = "2"

[dev-dependencies]
regex = "1"
