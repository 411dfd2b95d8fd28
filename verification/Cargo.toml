[package]
name = "universal_camera"
version = "0.1.0"
edition = "2021"
publish = false

[dependencies]
sha2 = "0.10"
hex = "0.4"
chacha20poly1305 = "0.10"
hkdf = "0.12"
x25519-dalek = { version = "2", features = ["static_secrets"] }
getrandom = "0.2"
zeroize = "1"
serde = { version = "1", features = ["derive"] }
serde_json = "1"
