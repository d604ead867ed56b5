[package]
name = "rolling_drones"
version = "0.1.0"
edition = "2021"
publish = false

[dependencies]
petgraph = "*"
base64 = "0.22"
serde = { version = "1", features = ["derive"] }
serde_json = "1"
toml = "0.8"
crossbeam-channel = "0.5"
rand = "0.9"
