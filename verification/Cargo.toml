[package]
name = "noise_handshake"
version = "0.1.0"
edition = "2021"
publish = false

[dependencies]
chacha20poly1305 = "0.10"
ed25519-dalek = { version = "2", features = ["rand_core"] }
hmac = "0.12"
rand = "0.8"
sha2 = "0.10"
thiserror = "1"
unsigned-varint = "0.7"
x25519-dalek = { version = "2", features = ["static_secrets"] }

[dev-dependencies]
prost = { version = "0.11", default-features = false }
