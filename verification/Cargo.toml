[package]
name = "pudb"
version = "0.1.0"
edition = "2021"
publish = false

[dependencies]
serde = { version = "1", features = ["derive"] }
serde_json = "1"
toml = "*"
tokio = { version = "1", features = ["macros", "rt-multi-thread", "sync", "fs"] }
tokio-postgres = "0.7"
reqwest = { version = "0.12", default-features = false, features = ["rustls-tls"] }
futures = "0.3"
zip-extract = "*"
