[package]
name = "cube_snapshot"
version = "0.1.0"
edition = "2021"
publish = false

[dependencies]
image = { version = "*", default-features = false, features = ["png"] }
uuid = { version = "*", features = ["v4"] }
tokio = { version = "*", features = ["rt", "time", "macros"] }
tokio-tungstenite = "*"
futures = "*"
