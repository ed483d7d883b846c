[package]
name = "tweetbook"
version = "0.1.0"
edition = "2021"
publish = false

[dependencies]
sha3 = "=0.10.9"
jsonwebtoken = "=9.3.1"
chunked_transfer = "=1.5.0"
uuid = { version = "=1.27.0", features = ["v4"] }
serde = { version = "=1.0.229", features = ["derive"] }
serde_json = "=1.0.151"
mongodb = { version = "=2.8.2", default-features = false, features = ["sync"] }
