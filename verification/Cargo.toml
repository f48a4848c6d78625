[package]
name = "intcode"
version = "0.1.0"
edition = "2021"
publish = false

[dependencies]
num = "0.4"
regex = "1"
rayon = "1"
factorial = "*"
by_address = "*"
