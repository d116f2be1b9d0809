[package]
name = "kvstore"
version = "0.1.0"
edition = "2021"
publish = false

[dependencies]
anyhow = "1"
async-trait = "0.1"
bincode = "1"
flume = "*"
nebari = "*"
parking_lot = "*"
serde = { version = "1", features = ["derive"] }
serde_cbor = "*"
sled = "*"
structopt = "0.3"
tokio = { version = "1", features = ["fs", "io-util", "rt"] }
watchable = "*"
