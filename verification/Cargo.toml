[package]
name = "auditfs"
version = "0.1.0"
edition = "2021"
publish = false

[dependencies]
anyhow = "1"
bincode = "1"
blake3 = { version = "1", default-features = false, features = ["pure"] }
chrono = "0.4"
flate2 = "1"
hmac = "0.12"
pbkdf2 = "0.12"
serde = { version = "1", features = ["derive"] }
serde_json = "1"
sha2 = "0.10"
