[package]
name = "os_paint"
version = "0.1.0"
edition = "2021"
publish = false

[dependencies]
macroquad = "=0.4.16"
miniquad = "=0.4.11"
matchbox_socket = "=0.15.0"
uuid = "=1.29.0"
bincode = "=1.3.3"
serde = { version = "=1.0.229", features = ["derive"] }
tokio = { version = "=1.54.1", features = ["rt-multi-thread"] }
