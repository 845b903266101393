[package]
name = "sphere_oxigen"
version = "0.1.0"
edition = "2021"
publish = false

[dependencies]
oxigen = "=2.2.2"
rand = { version = "=0.7.3", features = ["small_rng"] }
