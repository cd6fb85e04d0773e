[package]
name = "tectonic"
version = "0.1.0"
edition = "2021"
publish = false

[dependencies]
rand = "0.9"
rand_xoshiro = "0.7"
rand_distr = "0.5"
anyhow = "1"
serde = { version = "1", features = ["derive"] }
serde_json = "1"
schemars = "1"
statrs = "0.18"
indicatif = "0.18"
tracing = "0.1"
hdrhistogram = { version = "7", default-features = false }
bloom = "0.3"
enum_dispatch = "0.3"
sweep-bptree = "*"
