[package]
name = "lather"
version = "0.1.0"
edition = "2021"
publish = false

[dependencies]
rust-ini = "*"
rand = "0.8"
rayon = "1"
