[package]
name = "ai_cli"
version = "0.1.0"
edition = "2021"
publish = false

[dependencies]
indexmap = "2"
regex = "1"
sha2 = "0.10"
hex = "0.4"
serde_json = "1"
serde_yaml = "0.9"
libc = "0.2"
reqwest = { version = "0.12", default-features = false, features = ["blocking", "json", "rustls-tls"] }
