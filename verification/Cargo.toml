[package]
name = "fflag_dump"
version = "0.1.0"
edition = "2021"
publish = false

[dependencies]
object = "*"
attohttpc = "*"
serde = { version = "*", features = ["derive"] }
serde_json = "*"
