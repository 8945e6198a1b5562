[package]
name = "obkv"
version = "0.1.0"
edition = "2021"
publish = false

[dependencies]
anyhow = "1"
rand = { version = "0.8", features = ["small_rng"] }
structopt = "0.3"
toml = "*"
