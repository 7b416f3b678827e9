[package]
name = "stellatune_plugins"
version = "0.1.0"
edition = "2021"
publish = false

[dependencies]
memmap2 = "=0.9.12"
parking_lot = "=0.13.0"
serde = { version = "=1.0.229", features = ["derive"] }
serde_json = "=1.0.154"
walkdir = "=2.5.0"
rawzip = "=0.5.2"
flate2 = "=1.1.10"
tempfile = "=3.27.0"
libc = "=0.2.191"
