[package]
name = "p2p_node"
version = "0.1.0"
edition = "2021"
publish = false

[dependencies]
async-trait = "0.1"
blake3 = "1"
futures-util = "0.3"
hex = "0.4"
libp2p = { version = "0.56", default-features = false, features = ["autonat", "dcutr", "gossipsub", "identify", "kad", "macros", "mdns", "noise", "quic", "relay", "tcp", "tokio", "yamux"] }
lz4_flex = "0.11"
rand = "0.8"
serde = { version = "1", features = ["derive"] }
serde_json = "1"
tempfile = "3"
thiserror = "1"
tokio = { version = "1", features = ["macros", "rt", "sync", "time"] }
tracing = "0.1"
zstd = "0.13"
