[package]
name = "match_engine"
version = "0.1.0"
edition = "2021"
publish = false

[dependencies]
sorted-insert = "*"
uuid = { version = "1", features = ["v4", "serde"] }
serde = { version = "1", features = ["derive"] }
serde_json = "1"
sled = "0.34"
