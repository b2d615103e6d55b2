[package]
name = "hw_monitor"
version = "0.1.0"
edition = "2021"
publish = false

[dependencies]
async-std = { version = "1", features = ["attributes"] }
sysinfo = "0.30"
