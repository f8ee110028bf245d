[package]
name = "info_keep"
version = "0.1.0"
edition = "2021"
publish = false

[dependencies]
sled = "0.34"
time = "0.3"
clap = "2.33"
read_input = "0.8"
