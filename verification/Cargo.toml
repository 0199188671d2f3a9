[package]
name = "delaynet"
version = "0.1.0"
edition = "2021"
publish = false

[dependencies]
ringbuffer = "0.14"
rand = { version = "0.8", features = ["small_rng"] }
num-complex = "0.4"
derive_more = "0.99"
