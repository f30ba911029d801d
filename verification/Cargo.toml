[package]
name = "quilkin"
version = "0.1.0"
edition = "2021"
publish = false

[dependencies]
serde = { version = "*", features = ["derive"] }
serde_yaml = "=0.9.34"
base64 = "=0.23.1"
uuid = { version = "=1.27.0", features = ["v4"] }
tonic = "=0.14.6"
tonic-prost = "*"
prost = "*"
tokio = { version = "*", features = ["full"] }
tokio-stream = "*"
clap = { version = "*", features = ["derive"] }
ipnetwork = "*"
eyre = "*"
bytes = "*"
http-body-util = "*"
hyper = { version = "=1.12.0", features = ["full"] }
hyper-util = { version = "*", features = ["full"] }
prometheus = { version = "*", default-features = false }
