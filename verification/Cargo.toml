[package]
name = "miner_manager"
version = "0.1.0"
edition = "2021"
publish = false

[dependencies]
digest_auth = "*"
tokio = { version = "*", features = ["full"] }
reqwest = { version = "*", default-features = false, features = ["rustls-tls", "cookies"] }
serde = { version = "*", features = ["derive"] }
serde_json = "*"
dashmap = "*"
anyhow = "*"
lazy_static = "*"
directories = "*"
network-interface = "*"
