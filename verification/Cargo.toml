[package]
name = "go_stub"
version = "0.1.0"
edition = "2021"
publish = false

[dependencies]
fnv = "1.0"
rand = { version = "0.8", default-features = false }
rand_pcg = "0.3"
