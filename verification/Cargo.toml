[package]
name = "livechart"
version = "0.1.0"
edition = "2021"
publish = false

[dependencies]
clap = { version = "4", features = ["derive"] }
colored = "2"
log = "0.4"
nannou_core = "0.19"
serialport = { version = "4", default-features = false }
