[package]
name = "mdns"
version = "0.1.0"
edition = "2021"
publish = false

[dependencies]
async-std = { version = "1", features = ["unstable"] }
async-stream = "0.3"
dns-parser = "0.8"
futures-core = "0.3"
futures-util = "0.3"
log = "0.4"
