[package]
name = "account_cascade"
version = "0.1.0"
edition = "2021"
publish = false

[dependencies]
actix-web = "4"
mongodb = "3"
futures-util = "0.3"
serde = { version = "1", features = ["derive"] }
serde_json = "1"
