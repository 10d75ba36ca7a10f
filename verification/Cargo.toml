[package]
name = "sped_recovery"
version = "0.1.0"
edition = "2021"
publish = false

[dependencies]
encoding_rs = "*"
encoding_rs_io = "*"
serde = { version = "*", features = ["derive"] }
