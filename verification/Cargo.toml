[package]
name = "render3d"
version = "0.1.0"
edition = "2021"
publish = false

[dependencies]
crossbeam-channel = "=0.5.17"
image = { version = "=0.25.10", default-features = false, features = ["png"] }
tokio = { version = "=1.54.1", features = ["net", "io-util", "rt-multi-thread", "sync", "macros", "time"] }
serde = { version = "=1.0.229", features = ["derive"] }
bincode = "=1.3.3"
noise = "=0.9.0"
