[package]
name = "rv_netshare"
version = "0.1.0"
edition = "2021"
publish = false

[dependencies]
serde = { version = "1", features = ["derive"] }
serde_json = "1"
dirs = "*"
libc = "0.2"
url = "2"
ngrok = "*"
tokio = { version = "1", features = ["rt-multi-thread"] }
