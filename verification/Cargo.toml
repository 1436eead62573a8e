[package]
name = "sonic262"
version = "0.1.0"
edition = "2021"
publish = false

[dependencies]
dashmap = "*"
serde_yaml = "*"
clap = { version = "*", features = ["derive"] }
colored = "*"
jwalk = "*"
rayon = "*"
