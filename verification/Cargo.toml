[package]
name = "hypede"
version = "0.1.0"
edition = "2021"
publish = false

[dependencies]
anyhow = "=1.0.104"
directories = "=5.0.1"
image = { version = "0.25", default-features = false }
serde = { version = "=1.0.229", features = ["derive"] }
serde_json = "=1.0.154"
thiserror = "=1.0.69"
toml = "=0.8.23"
tracing = "=0.1.44"
xcursor = "0.3"
