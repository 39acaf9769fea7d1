[package]
name = "redrob"
version = "0.1.0"
edition = "2021"
publish = false

[dependencies]
serde_json = "=1.0.154"
serde = { version = "=1.0.229", features = ["derive"] }
zip = { version = "=2.6.1", default-features = false, features = ["deflate"] }
font8x8 = "=0.3.1"
uuid = { version = "=1.29.0", features = ["v4"] }
quick-xml = "*"
