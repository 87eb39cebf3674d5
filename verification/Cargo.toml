[package]
name = "succinct_bv"
version = "0.1.0"
edition = "2021"
publish = false

[dependencies]
bitvec = "0.17"
num-integer = "0.1"
