[package]
name = "orb8"
version = "0.1.0"
edition = "2021"
publish = false

[dependencies]
anyhow = "1"
aya = "0.13"
aya-log = "0.2"
chrono = "0.4"
clap = { version = "4", features = ["derive"] }
dashmap = "6"
env_logger = "0.11"
futures = "0.3"
hostname = "0.4"
k8s-openapi = { version = "0.24", features = ["latest"] }
kube = { version = "0.98", features = ["runtime"] }
libc = "0.2"
log = "0.4"
prost = "0.13"
tokio = { version = "1", features = ["full"] }
tokio-stream = { version = "0.1", features = ["sync"] }
tokio-util = "0.7"
tonic = "0.12"
