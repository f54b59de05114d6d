[package]
name = "nostr_bridge"
version = "0.1.0"
edition = "2021"
publish = false

[dependencies]
nostr-types = "=0.4.0"
serde_json = "=1.0.151"
sha2 = "=0.11.0"
serde = { version = "=1.0.229", features = ["derive"] }
hyper = { version = "=0.14.32", features = ["full"] }
hyper-tls = "=0.5.0"
tokio = { version = "=1.53.2", features = ["full"] }
tokio-tungstenite = { version = "=0.30.0", features = ["native-tls"] }
futures-util = "=0.3.34"
