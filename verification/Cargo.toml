[package]
name = "deezns"
version = "0.1.0"
edition = "2021"
publish = false

[dependencies]
cel-interpreter = "=0.9.1"
libc = "0.2"
libnss = "=0.9.0"
procfs = "=0.18.0"
serde = { version = "1", features = ["derive"] }
serde_json = "1"
tokio = { version = "1", features = ["full"] }
toml = "0.8"
tracing = "0.1"
tracing-subscriber = "0.3"
