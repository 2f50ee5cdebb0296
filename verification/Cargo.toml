[package]
name = "broadcast_hub"
version = "0.1.0"
edition = "2021"
publish = false

[dependencies]
actix-web = "=4.18.1"
actix-web-lab = "=0.19.2"
futures-util = "=0.3.34"
serde = { version = "=1.0.229", features = ["derive"] }
tokio = { version = "=1.54.1", features = ["sync", "time"] }
uuid = { version = "1", features = ["serde", "v4"] }
