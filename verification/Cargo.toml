[package]
name = "klib"
version = "0.1.0"
edition = "2021"
publish = false

[dependencies]
base64 = "0.13"
regex = "1"
reqwest = { version = "0.11", default-features = false, features = ["blocking", "gzip", "json"] }
serde = { version = "1", features = ["derive"] }
serde_json = "1"
structopt = "0.3"
