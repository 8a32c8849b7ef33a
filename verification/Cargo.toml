[package]
name = "grpc_service"
version = "0.1.0"
edition = "2021"
publish = false

[dependencies]
tonic = "0.13"
prost = "0.13"
tokio = { version = "1", features = ["full"] }
tokio-stream = { version = "0.1", features = ["sync", "net"] }
async-stream = "0.3"
