[package]
name = "rand_hash"
version = "0.1.0"
edition = "2021"
publish = false

[dependencies]
digest = "0.10"
sha2 = "0.10"
rand_core = "0.6"
udigest = "0.2"

[dev-dependencies]
rand = "0.8"
rand_dev = "0.1"
