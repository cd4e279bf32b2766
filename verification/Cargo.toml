[package]
name = "ultimateslice"
version = "0.1.0"
edition = "2021"
publish = false

[dependencies]
anyhow = "1"
hound = "3"
libc = "0.2"
log = "0.4"
ndarray = "0.16"
png = "0.17"
quick-xml = "0.37"
serde = { version = "1", features = ["derive"] }
serde_json = "1"
tempfile = "3"
uuid = { version = "1", features = ["v4"] }
