[package]
name = "exonum"
version = "0.1.0"
edition = "2021"
publish = false

[dependencies]
sha2 = "=0.10.9"
rand = "=0.10.3"
rand_xorshift = "=0.5.0"
ed25519-dalek = "2"
