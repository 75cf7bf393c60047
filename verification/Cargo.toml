[package]
name = "joylight_backend"
version = "0.1.0"
edition = "2021"
publish = false

[dependencies]
uuid = { version = "1", features = ["v4"] }
smallvec = "1"
rand = "0.9"
tokio = { version = "1", features = ["rt-multi-thread", "macros", "time"] }
flexi_logger = "*"
log = "0.4"
ndarray = "0.16"
ndarray-linalg = "0.17"
serde = { version = "1", features = ["derive"] }
