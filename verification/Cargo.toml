[package]
name = "finnhub_ws"
version = "0.1.0"
edition = "2021"
publish = false

[dependencies]
chrono = "*"
clap = { version = "*", features = ["derive"] }
crossbeam-channel = "*"
futures = "*"
futures-util = "*"
rayon = "*"
serde = { version = "*", features = ["derive"] }
serde_json = "*"
tokio = { version = "*", features = ["macros", "rt-multi-thread", "time", "net"] }
tokio-tungstenite = "*"
url = "*"
