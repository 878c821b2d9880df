[package]
name = "verpoll"
version = "0.1.0"
edition = "2021"
publish = false

[dependencies]
clap = { version = "*", features = ["derive"] }
num_cpus = "*"
rand = "*"
rayon = "*"
regex = "*"
serde = { version = "*", features = ["derive"] }
toml = "*"
