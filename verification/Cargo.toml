[package]
name = "liot"
version = "0.1.0"
edition = "2021"
publish = false

[dependencies]
blake2 = "*"
chacha20poly1305 = "*"
x25519-dalek = "*"
base58 = "*"
rand = "*"
serde = { version = "*", features = ["derive"] }
serde_json = "*"

[dev-dependencies]
snow = "*"
postcard = { version = "*", features = ["alloc"] }
hex = "*"
