[package]
name = "selective_privacy"
version = "0.1.0"
edition = "2021"
publish = false

[dependencies]
sha2 = "=0.10.9"
risc0-zkvm = { version = "=1.2.6", default-features = false, features = ["std", "client"] }
chacha20 = "=0.9.1"
serde = { version = "=1.0.229", features = ["derive"] }
rand = "=0.8.8"
hex = "=0.4.3"
anyhow = "=1.0.104"
ark-bn254 = "0.5"
ark-ec = "0.5"
curve25519-dalek = "4"
group = "0.13"
jubjub = "0.10"
pasta_curves = "0.5"
