[package]
name = "hyper_latency"
version = "0.1.0"
edition = "2021"
publish = false

[dependencies]
tungstenite = { version = "*", features = ["native-tls"] }
parking_lot = "*"
url = "*"
timed = "*"
