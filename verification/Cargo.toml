[package]
name = "snarkvm_verified"
version = "0.1.0"
edition = "2021"
publish = false

[dependencies]
hex = "0.4"
num_cpus = "1"
rayon = "1"
aleo-std = { version = "0.1", features = ["cpu"] }
indexmap = "2"
itertools = "*"
clap = { version = "4", features = ["derive"] }
anstyle = "1"
anyhow = "1"
