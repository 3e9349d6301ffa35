[package]
name = "cellsim"
version = "0.1.0"
edition = "2021"
publish = false

[dependencies]
binary-heap-plus = "0.5"
rand = "=0.8.5"
rand_distr = "=0.4.3"
clap = { version = "4", features = ["derive"] }
serde = { version = "1", features = ["derive"] }
toml = "0.8"
rayon = "1"
