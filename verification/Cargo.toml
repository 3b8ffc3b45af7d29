[package]
name = "rgate"
version = "0.1.0"
edition = "2021"

[dependencies]
subprocess = "*"
config = "*"
