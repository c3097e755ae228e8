[package]
name = "waf"
version = "0.1.0"
edition = "2021"
publish = false

[dependencies]
brotli = "*"
regex = "1"
sha2 = "0.10"
uuid = { version = "1", features = ["v4"] }
bytes = "1"
hyper = { version = "1", features = ["http1", "server", "client"] }
hyper-util = { version = "0.1", features = ["client-legacy", "http1", "tokio"] }
http-body-util = "0.1"
tokio = { version = "1", features = ["full"] }
dotenv = "0.15"
