[package]
name = "pyx86"
version = "0.1.0"
edition = "2021"
publish = false

[dependencies]
rustpython-parser = "0.4"
rand = "0.8"
anyhow = "1"
clap = { version = "4", features = ["derive"] }
tempfile = "3"
serde = { version = "1", features = ["derive"] }
serde_json = "1"
toml = "0.8"
glob = "0.3"
num_cpus = "1"
rayon = "1"
