[package]
name = "plasma"
version = "0.1.0"
edition = "2021"
publish = false

[dependencies]
getopts = "0.2"
gif = "*"
futures = "0.1"
futures-cpupool = "0.1"
