[package]
name = "ringchain"
version = "0.1.0"
edition = "2021"
publish = false

[dependencies]
ring = "0.16"
rand = "0.7"
serde = { version = "1", features = ["derive"] }
serde_json = "1"
mio = "0.6"
log = "0.4"
simple_logger = "1"
