[package]
name = "silmarils"
version = "0.1.0"
edition = "2021"
publish = false

[dependencies]
ark-ff = "0.5"
ark-secp256k1 = "0.5"
ark-std = "0.5"
hex = "0.4"
hkdf = "0.12"
hmac = "0.12"
sha2 = "0.10"
rand = "0.8"
rand_chacha = "0.3"
