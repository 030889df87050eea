[package]
name = "ghostwriter"
version = "0.1.0"
edition = "2021"
publish = false

[dependencies]
futures = "0.3"
governor = "0.8"
reqwest = { version = "0.12", default-features = false, features = ["json", "stream", "rustls-tls"] }
semver = "1"
serde = { version = "1", features = ["derive"] }
serde_json = "1"
thiserror = "2"
tokio = { version = "1", features = ["time", "rt", "macros"] }
tracing = "0.1"
