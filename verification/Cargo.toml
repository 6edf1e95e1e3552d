[package]
name = "pdfer_forms"
version = "0.3.4"
edition = "2021"
publish = false

[dependencies]
lopdf = "0.40"
serde = { version = "1", features = ["derive"] }
serde_json = "1"
tempfile = "3"
