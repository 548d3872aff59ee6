[package]
name = "swhid"
version = "0.1.0"
edition = "2021"
publish = false

[dependencies]
sha1 = "0.10"
sha2 = "0.10"
chrono = "0.4"
serde_json = "1"

[dev-dependencies]
hex = "0.4"
