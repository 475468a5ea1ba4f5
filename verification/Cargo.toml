[package]
name = "ecies_poseidon"
version = "0.1.0"
edition = "2021"
publish = false

[dependencies]
snarkvm-curves = { version = "=0.8.0", default-features = false }
snarkvm-fields = { version = "=0.8.0", default-features = false }
snarkvm-utilities = { version = "=0.8.0", default-features = false, features = ["std", "derive"] }
rand = "=0.8.8"
