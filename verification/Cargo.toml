[package]
name = "pip"
version = "0.1.0"
edition = "2021"
publish = false

[dependencies]
petgraph = "0.4"
rand = "0.5"
regex = "1"
bimap = "*"
lazy_static = "1"
serde = { version = "1", features = ["derive"] }
serde_yaml = "0.8"
clap = { version = "2", features = ["yaml"] }
