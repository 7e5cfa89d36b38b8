[package]
name = "aira_core"
version = "0.1.0"
edition = "2021"
publish = false

[dependencies]
aes-gcm-siv = "0.11"
ed25519-dalek = { version = "2", features = ["rand_core"] }
hkdf = "0.12"
hmac = "0.12"
rand = "0.8"
rusqlite = { version = "0.31", features = ["bundled"] }
scrypt = "0.11"
sha2 = "0.10"
uuid = { version = "1", features = ["v4"] }
zeroize = "1"

[dev-dependencies]
hex = "0.4"
