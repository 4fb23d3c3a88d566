[package]
name = "sla_client"
version = "0.1.0"
edition = "2021"
publish = false

[dependencies]
sled = "*"
chrono = "*"
md5 = "*"
serde = { version = "*", features = ["derive"] }
serde_json = "*"
toml = "*"
clap = { version = "*", features = ["derive"] }
tokio = { version = "*", features = ["full"] }
reqwest = { version = "*", default-features = false, features = ["json"] }
hyper = { version = "0.14", features = ["full"] }
prometheus = "*"
