[package]
name = "csqtt"
version = "0.1.0"
edition = "2021"
publish = false

[dependencies]
aes = "0.8"
anyhow = "1"
arc-swap = "1"
aws-lc-rs = "1"
clap = { version = "4", features = ["derive"] }
crossbeam-queue = "0.3"
ctr = "0.9"
dashmap = "6"
libc = "0.2"
rand = "0.8"
serde = { version = "1", features = ["derive"] }
serde_json = "1"
slab = "0.4"
socket2 = "0.5"
subtle = "2"
tokio = { version = "1", features = ["full"] }
tokio-util = "0.7"
