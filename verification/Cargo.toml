[package]
name = "prune"
version = "0.1.0"
edition = "2021"
publish = false

[dependencies]
anyhow = "1"
ark-bn254 = "0.5"
ark-ff = "0.5"
ark-groth16 = "0.5"
ark-r1cs-std = "0.5"
ark-relations = "0.5"
ark-serialize = "0.5"
ark-snark = "0.5"
bitcoin = { version = "0.32", features = ["rand-std"] }
bitcoincore-rpc = "0.19"
chacha20poly1305 = "0.10"
clap = { version = "4", features = ["derive"] }
dirs = "5"
hex = "0.4"
rand = "0.8"
secp256k1 = { version = "0.29", features = ["rand-std"] }
serde = { version = "1", features = ["derive"] }
serde_json = "1"
serde-wasm-bindgen = "0.6"
sha2 = "0.10"
wasm-bindgen = "0.2"
x25519-dalek = { version = "2", features = ["static_secrets"] }

[dev-dependencies]
ark-std = "0.5"
