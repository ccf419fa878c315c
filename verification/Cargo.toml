[package]
name = "rust_node"
version = "0.1.0"
edition = "2021"
publish = false

[dependencies]
anyhow = "=1.0.104"
async-trait = "=0.1.92"
bytes = "=1.12.1"
clap = { version = "=4.6.7", features = ["derive"] }
env_logger = "=0.11.11"
futures = "=0.3.34"
jsonrpc-http-server = "=18.0.0"
litep2p = "=0.16.0"
log = "=0.4.34"
multiaddr = "=0.18.2"
parity-scale-codec = { version = "=3.7.5", features = ["derive"] }
rocksdb = "=0.25.0"
sha2 = "=0.10.9"
tokio = { version = "=1.54.1", features = ["full"] }
tokio-util = { version = "=0.7.20", features = ["codec"] }
