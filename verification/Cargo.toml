[package]
name = "nonsmooth_gen"
version = "0.1.0"
edition = "2021"
publish = false

[dependencies]
clap = "2.34"
num-bigint = { version = "0.4", features = ["rand"] }
num-traits = "0.2"
rand = "0.8"
