[package]
name = "tracing_timeline"
version = "0.1.0"
edition = "2021"
publish = false

[dependencies]
once_cell = "*"
parking_lot = "*"
serde = { version = "*", features = ["derive"] }
serde_json = "*"
