[package]
name = "param_server"
version = "0.1.0"
edition = "2021"
publish = false

[dependencies]
parking_lot = "*"
rustc_apfloat = "*"
