[package]
name = "homectl_core"
version = "0.1.0"
edition = "2021"
publish = false

[dependencies]
evalexpr = "=11.3.1"
palette = "=0.7.7"
serde = { version = "=1.0.229", features = ["derive"] }
serde_json = "=1.0.151"
ts-rs = "=12.0.1"
