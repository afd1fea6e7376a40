[package]
name = "ovata_infer_protocol"
version = "0.3.0"
edition = "2021"
publish = false

[dependencies]
serde = { version = "1", features = ["derive"] }
serde_json = "1"
