[package]
name = "lightray"
version = "0.1.0"
edition = "2021"
publish = false

[dependencies]
base64 = "0.13"
actix-web = { version = "4", default-features = false, features = ["macros"] }
actix-multipart = "0.7"
futures = "0.3"
serde = { version = "1", features = ["derive"] }
serde_json = "1"
tokio = { version = "1", features = ["sync", "rt", "rt-multi-thread", "macros"] }
crossbeam-queue = "0.3"
uuid = { version = "1", features = ["v4"] }
bytes = "1"
