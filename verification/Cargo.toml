[package]
name = "ant_colony"
version = "0.1.0"
edition = "2021"
publish = false

[dependencies]
hexx = { version = "=0.20.0", default-features = false }
