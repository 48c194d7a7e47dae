[package]
name = "vertex_topology"
version = "0.1.0"
edition = "2021"
publish = false

[dependencies]
nectar-primitives = { version = "=0.4.0", default-features = false }
nectar-contracts = { version = "=0.4.0", default-features = false }
rand = "=0.9.5"
rand_chacha = "=0.9.0"
web-time = "=1.1.0"
hex = "=0.4.3"
alloy-primitives = { version = "=1.7.3", default-features = false, features = ["std"] }
alloy-chains = { version = "=0.2.39", default-features = false, features = ["serde"] }
tokio = { version = "=1.54.1", features = ["rt-multi-thread", "time", "sync", "macros"] }
futures-util = "=0.3.34"
parking_lot = "=0.12.5"
clap = { version = "=4.6.7", features = ["derive"] }
serde = { version = "=1.0.229", features = ["derive"] }
serde_json = "=1.0.154"
thiserror = "=2.0.21"
dyn-clone = "=1.0.20"
metrics = "=0.24.6"
tracing = "=0.1.44"
