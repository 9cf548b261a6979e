[package]
name = "iris-core"
version = "0.1.0"
edition = "2021"
publish = false

[dependencies]
anyhow = "1"
cpu-time = "1"
csv = "1"
itertools = "*"
lazy_static = "1"
log = "0.4"
serde = { version = "1", features = ["derive"] }
