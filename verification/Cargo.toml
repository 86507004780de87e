[package]
name = "replication_engine"
version = "0.1.0"
edition = "2021"
publish = false

[dependencies]
blake3 = "1"
bitvec = "1"
rand = "*"
uuid = { version = "1", features = ["v4"] }
serde = { version = "1", features = ["derive"] }
bincode = "1"
rkyv = "0.8"
tokio = { version = "1", features = ["rt-multi-thread", "net", "sync", "time", "io-util", "macros"] }
tracing = "0.1"
metrics = "*"
dashmap = "6"
async-trait = "0.1"
futures = "0.3"
thiserror = "2"
