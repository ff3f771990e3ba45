[package]
name = "kaiseki"
version = "0.1.0"
edition = "2021"
publish = false

[dependencies]
bincode = "2"
clap = { version = "4", features = ["derive"] }
encoding_rs = "0.8"
fst = "0.4"
thiserror = "1"
