[package]
name = "klondike"
version = "0.1.0"
edition = "2021"
publish = false

[dependencies]
anyhow = "1"
enum-iterator = "0.7"
rand = "0.8"
rand_pcg = "0.3"
