[package]
name = "uploadstore"
version = "0.1.0"
edition = "2021"
publish = false

[dependencies]
chrono = "*"
actix-web = "*"
actix-files = "*"
actix-multipart = "*"
futures-util = "*"

[dev-dependencies]
serde_json = "*"
