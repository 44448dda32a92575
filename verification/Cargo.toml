[package]
name = "stateless_bitcoin_l2"
version = "0.1.0"
edition = "2021"
publish = false

[dependencies]
anyhow = "*"
base64 = "*"
blsful = "*"
env_logger = "*"
fs2 = "*"
futures-util = "*"
log = "*"
rand = "*"
rs_merkle = "*"
serde = { version = "*", features = ["derive"] }
serde_json = "*"
sha2 = "*"
tokio = { version = "*", features = ["rt-multi-thread", "net", "time", "sync", "io-util", "io-std", "macros"] }
tokio-tungstenite = "*"
