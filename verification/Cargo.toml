[package]
name = "modbus_watch"
version = "0.1.0"
edition = "2021"
publish = false

[dependencies]
anyhow = "1"
async-trait = "0.1"
notify = "8"
tokio = { version = "1", features = ["full"] }
tokio-modbus = { version = "*", default-features = false, features = ["tcp"] }

[dev-dependencies]
tempfile = "3"
