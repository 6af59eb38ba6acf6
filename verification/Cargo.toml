[package]
name = "bacon_sci"
version = "0.1.0"
edition = "2021"
publish = false

[dependencies]
alga = "0.9"
num-complex = "0.2"
num-traits = "0.2"
