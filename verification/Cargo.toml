[package]
name = "qalam"
version = "0.1.0"
edition = "2021"
publish = false

[dependencies]
libp2p = { version = "*", features = ["gossipsub", "mdns", "tokio", "tcp", "noise", "yamux", "request-response", "macros", "ed25519"] }
ciborium = "0.2"
sha2 = "0.10"
uuid = { version = "1", features = ["v7"] }
tokio = { version = "1", features = ["sync", "macros", "rt"] }
futures-util = "0.3"
tracing = "0.1"
anyhow = "1"
serde = { version = "1", features = ["derive"] }
toml = "*"
