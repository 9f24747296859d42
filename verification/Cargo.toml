[package]
name = "admin_gateway"
version = "0.1.0"
edition = "2021"
publish = false

[dependencies]
serde_json = "*"
url = "*"
http = "*"
hyper = { version = "0.14", features = ["full"] }
tokio = { version = "1", features = ["full"] }
log = "*"
reqwest = { version = "*", default-features = false }
web-sys = { version = "*", features = ["Window", "Location"] }
