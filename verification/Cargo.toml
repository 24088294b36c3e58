[package]
name = "snarkos_network"
version = "0.1.0"
edition = "2021"
publish = false

[dependencies]
bincode = "1.3"
chrono = "0.4"
metrics = "0.21"
nalgebra = "0.32"
parking_lot = "0.12"
rand = "0.8"
serde = { version = "1", features = ["derive"] }
snow = "0.9"
tokio = { version = "1", features = ["io-util", "net", "rt-multi-thread", "sync", "time"] }
tracing = "0.1"
