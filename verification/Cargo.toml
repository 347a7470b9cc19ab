[package]
name = "ciroach"
version = "0.1.0"
edition = "2021"
publish = false

[dependencies]
anyhow = "1"
bollard = "0.19"
chrono = "0.4"
colored = "3"
futures-util = "0.3"
indicatif = "0.17"
serde = { version = "1", features = ["derive"] }
tokio = { version = "1", features = ["full"] }
tokio-util = "0.7"
toml = { version = "0.8", features = ["preserve_order"] }

[dev-dependencies]
regex = "1"
