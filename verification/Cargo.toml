[package]
name = "paillier_php"
version = "0.1.0"
edition = "2021"
publish = false

[dependencies]
fast-paillier = "*"
rand_core = { version = "0.6", features = ["getrandom"] }
ext-php-rs = "*"
