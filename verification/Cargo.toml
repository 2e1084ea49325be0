[package]
name = "proxy_tunnel"
version = "0.1.0"
edition = "2021"
publish = false

[dependencies]
base64 = "0.22"
portpicker = "0.1"
tokio = { version = "1", features = ["io-util", "macros", "net", "rt-multi-thread", "sync", "time"] }
