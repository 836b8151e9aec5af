[package]
name = "grip"
version = "0.1.0"
edition = "2021"
publish = false

[dependencies]
regex = "*"
clap = "*"
walkdir = "*"
rayon = "*"
