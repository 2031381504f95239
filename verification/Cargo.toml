[package]
name = "stylus"
version = "0.1.0"
edition = "2021"
publish = false

[dependencies]
handlebars = "*"
serde_json = "*"
serde = { version = "*", features = ["derive"] }
serde_yaml_ng = "*"
subprocess = "*"
humantime-serde = "*"
axum = "*"
tokio = { version = "*", features = ["rt-multi-thread", "net", "macros"] }
