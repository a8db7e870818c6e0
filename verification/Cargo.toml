[package]
name = "bitchess"
version = "0.1.0"
edition = "2021"
publish = false

[dependencies]
rand = { version = "0.9", features = ["small_rng"] }
arrayvec = "0.7"
nohash-hasher = "0.2"
owo-colors = "4"
rayon = "1"
array-init = "2"
