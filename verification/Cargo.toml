[package]
name = "adnl"
version = "0.1.0"
edition = "2021"
publish = false

[dependencies]
aes = "=0.8.4"
ctr = "=0.9.2"
sha2 = "=0.10.9"
everscale-crypto = "=0.3.0"
rand = "=0.8.8"
hex = "=0.4.3"
dashmap = "=5.5.3"
tl-proto = "=0.5.4"
anyhow = "=1.0.104"
thiserror = "=1.0.69"
bytes = "=1.12.1"
parking_lot = "=0.12.5"
serde = { version = "=1.0.229", features = ["derive"] }
tokio = { version = "=1.54.1", features = ["net", "rt", "sync", "time"] }
tokio-util = "=0.7.20"
futures-util = "=0.3.34"
tracing = "=0.1.44"
smallvec = "=1.16.4"

[dev-dependencies]
ed25519-consensus = "=2.1.0"
