[package]
name = "holepunch"
version = "0.1.0"
edition = "2021"
publish = false

[dependencies]
rand = "0.7"
serde = { version = "1", features = ["derive"] }
serde_cbor = "0.11"
serde_yaml = "0.8"
structopt = "0.3"
tokio = { version = "0.2", features = ["full"] }
ttl_cache = "0.5"
unzip3 = "1"
