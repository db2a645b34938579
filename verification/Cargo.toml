[package]
name = "hub_store"
version = "0.1.0"
edition = "2021"
publish = false

[dependencies]
serde_json = "1"
argon2 = { version = "0.5", features = ["std"] }
tokio = { version = "1", features = ["full"] }
futures = "0.3"
tokio-stream = "0.1"
warp = { version = "0.3", features = ["tls"] }
uuid = { version = "1", features = ["v4"] }
dotenv = "0.15"
