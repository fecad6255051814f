[package]
name = "mf"
version = "0.1.0"
edition = "2021"
publish = false

[dependencies]
getopt_rs = "=0.1.1"
