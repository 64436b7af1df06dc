[package]
name = "chisel_server"
version = "0.1.0"
edition = "2021"
publish = false

[dependencies]
regex = "=1.13.1"
form_urlencoded = "=1.2.2"
format-sql-query = "=0.4.0"
base64 = "=0.13.1"
serde = { version = "=1.0.229", features = ["derive"] }
serde_json = "=1.0.154"
serde_yaml = "=0.9.34"
petgraph = "=0.6.5"
hyper = { version = "=0.14.32", default-features = false }
uuid = { version = "=1.29.0", features = ["v4"] }
