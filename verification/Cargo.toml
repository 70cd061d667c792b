[package]
name = "kvs"
version = "0.1.0"
edition = "2021"
publish = false

[dependencies]
anyhow = "1"
docopt = "1.1"
serde = { version = "1", features = ["derive"] }
