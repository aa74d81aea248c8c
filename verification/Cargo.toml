[package]
name = "xcli"
version = "0.5.0"
edition = "2021"
publish = false

[dependencies]
aes = { version = "0.8", features = ["zeroize"] }
cbc = { version = "0.1", features = ["block-padding", "alloc", "zeroize"] }
pbkdf2 = "0.12"
rusqlite = { version = "0.32", features = ["bundled"] }
serde = { version = "1", features = ["derive"] }
serde_json = "1"
sha1 = "0.10"
sha2 = "0.10"
url = "2"
zeroize = "1"
