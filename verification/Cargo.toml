[package]
name = "blockcheck"
version = "0.1.0"
edition = "2021"
publish = false

[dependencies]
sha2 = "0.10"
chrono = "0.4"
rand = "0.8"
clap = "4"
libc = "0.2"
