[package]
name = "rusty_coin"
version = "0.1.0"
edition = "2021"
publish = false

[dependencies]
sha2 = "0.10"
secp256k1 = { version = "0.29", features = ["rand-std"] }
rand = "0.8"
serde = { version = "1", features = ["derive"] }
bincode = "1.3"
tokio = { version = "1", features = ["full"] }
log = "0.4"
env_logger = "0.11"
hex = "0.4"

[dev-dependencies]
num-bigint = "0.4"
