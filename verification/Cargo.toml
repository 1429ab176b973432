[package]
name = "silicate"
version = "0.1.0"
edition = "2021"
publish = false

[dependencies]
syntect = "=5.3.0"
image = "=0.24.9"
