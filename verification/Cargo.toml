[package]
name = "registry_deploy"
version = "0.1.0"
edition = "2021"
publish = false

[dependencies]
base64 = "0.22"
toml = "0.8"
serde = { version = "1", features = ["derive"] }
reqwest = { version = "0.12", default-features = false, features = ["blocking", "json", "rustls-tls"] }
