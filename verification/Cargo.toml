[package]
name = "mc_scanner"
version = "0.1.0"
edition = "2021"
publish = false

[dependencies]
ipnet = "2"
md5 = "*"
serde_json = "1"
serde = { version = "1", features = ["derive"] }
tokio = { version = "1", features = ["full"] }
tokio-postgres = { version = "0.7", features = ["with-serde_json-1"] }
postgres-types = { version = "0.2", features = ["derive", "with-serde_json-1"] }
deadpool-postgres = "*"
toml = "*"
rand = "*"
tracing = "0.1"
tracing-subscriber = "0.3"
futures = "0.3"
