[package]
name = "swap"
version = "0.1.0"
edition = "2021"
publish = false

[dependencies]
anyhow = "1"
async-trait = "0.1"
data-encoding = "2.3"
futures = "0.3"
libp2p = { version = "0.37", default-features = false, features = ["tcp-tokio", "dns-tokio", "websocket", "noise", "yamux", "mplex", "request-response"] }
reqwest = { version = "0.11", default-features = false, features = ["rustls-tls", "socks"] }
serde = { version = "1", features = ["derive"] }
serde_cbor = "0.11"
serde_json = "1"
sled = "0.34"
thiserror = "1"
tokio = { version = "1", features = ["rt-multi-thread", "net", "macros", "time"] }
tokio-socks = "0.5"
torut = { version = "0.1", default-features = false, features = ["v3", "control"] }
tracing = "0.1"
uuid = { version = "0.8", features = ["serde", "v4"] }
