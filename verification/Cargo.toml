[package]
name = "mm_engine"
version = "0.1.0"
edition = "2021"
publish = false

[dependencies]
ethers-core = "2.0"
ethers-signers = "2.0"
hex = "0.4"
serde = { version = "1", features = ["derive"] }
serde_json = { version = "1", features = ["preserve_order"] }
rmp-serde = "1"
chrono = "0.4"
log = "0.4"
env_logger = "0.10"
dotenvy = "0.15"
uuid = { version = "1", features = ["v4"] }
url = "2"
async-trait = "0.1"
futures-util = "0.3"
tokio = { version = "1", features = ["full"] }
tokio-tungstenite = { version = "0.20", features = ["rustls-tls-webpki-roots"] }
reqwest = { version = "0.11", default-features = false, features = ["json", "rustls-tls"] }
redis = { version = "0.23", features = ["tokio-comp"] }
