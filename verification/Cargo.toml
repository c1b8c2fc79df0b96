[package]
name = "roulette_simulation"
version = "0.1.0"
edition = "2021"
publish = false

[dependencies]
clap = { version = "3.2", features = ["derive"] }
itertools = "0.10"
rand = "0.8"
rayon = "1"
