[package]
name = "file_gateway"
version = "0.1.0"
edition = "2021"
publish = false

[dependencies]
axum = { version = "*", features = ["multipart"] }
futures-util = "*"
object_store = { version = "*", features = ["aws"] }
serde = { version = "*", features = ["derive"] }
serde_json = "*"
