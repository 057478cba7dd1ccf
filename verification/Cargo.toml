[package]
name = "novelty_search"
version = "0.1.0"
edition = "2021"
publish = false

[dependencies]
distances = "*"
rand = "0.9"
rand_chacha = "0.9"
