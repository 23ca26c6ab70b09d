[package]
name = "shared_protocol"
version = "0.1.0"
edition = "2021"
publish = false

[dependencies]
sha2 = "0.10"
hkdf = "0.12"
chacha20poly1305 = "0.10"
zstd = "0.13"
x25519-dalek = { version = "2", features = ["static_secrets"] }
ml-kem = "*"
ml-dsa = "*"
rand_core = "0.6"
serde = { version = "1", features = ["derive"] }
serde_json = "1"
postcard = { version = "1", features = ["use-std"] }
bincode = { version = "2", features = ["serde"] }
thiserror = "2"
tokio = { version = "1", features = ["io-util"] }
async-trait = "0.1"
