[package]
name = "wasm_h3"
version = "0.1.0"
edition = "2021"
publish = false

[dependencies]
ring = "=0.17.14"
http = "=1.5.0"
bytes = "=1.12.1"
futures = "=0.3.34"
serde = { version = "=1.0.229", features = ["derive"] }
thiserror = "=1.0.69"
tokio = { version = "=1.54.1", features = ["rt", "macros", "sync", "time", "net"] }
tracing = "=0.1.44"
tracing-subscriber = "=0.3.23"
rustls = { version = "=0.21.12", features = ["dangerous_configuration"] }
