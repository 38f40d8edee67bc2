[package]
name = "passlane"
version = "0.1.0"
edition = "2021"
publish = false

[dependencies]
pwhash = "*"
anyhow = "*"
chrono = "*"
clap = "*"
csv = "*"
dirs = "*"
