[package]
name = "newsletter"
version = "0.1.0"
edition = "2021"
publish = false

[dependencies]
anyhow = "=1.0.104"
reqwest = { version = "=0.12.28", default-features = false, features = ["rustls-tls"] }
serde_json = "=1.0.154"
