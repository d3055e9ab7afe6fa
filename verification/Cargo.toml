[package]
name = "prime_curve"
version = "0.1.0"
edition = "2021"
publish = false

[dependencies]
num = "0.4"
bitvec = "1"
