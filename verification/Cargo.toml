[package]
name = "corus_v2"
version = "0.1.0"
edition = "2021"
publish = false

[dependencies]
num-traits = "0.2"
biquad = "0.4"
serde = { version = "1", features = ["derive"] }
