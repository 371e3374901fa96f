[package]
name = "gossipsub_stream"
version = "0.1.0"
edition = "2021"
publish = false

[dependencies]
anyhow = "1"
futures = "0.3"
libp2p = { version = "0.52", default-features = false, features = ["gossipsub"] }
tracing = "0.1"
