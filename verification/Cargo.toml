[package]
name = "meio"
version = "0.1.0"
edition = "2021"
publish = false

[dependencies]
anyhow = "1"
async-trait = "0.1"
derive_more = "0.99"
futures = "0.3"
futures-timer = "3"
headers = "0.3"
hyper = { version = "0.14", features = ["server", "http1", "tcp", "runtime"] }
log = "0.4"
serde = { version = "1", features = ["derive"] }
serde_qs = "0.8"
slab = "0.4"
thiserror = "1"
tokio = { version = "1", features = ["full"] }
tokio-tungstenite = "0.20"
tokio-util = { version = "0.6", features = ["time"] }
tungstenite = "0.20"
uuid = { version = "1", features = ["v4"] }
warp = "0.3"
