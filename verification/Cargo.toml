[package]
name = "bitboard"
version = "0.1.0"
edition = "2021"
publish = false

[dependencies]
fnv = "=1.0.7"
rand = "=0.8.8"
rayon = "=1.12.0"
