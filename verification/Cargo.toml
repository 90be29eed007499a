[package]
name = "coeconvertor_rs"
version = "0.1.0"
edition = "2021"
publish = false

[dependencies]
image = "0.23"
clap = "2.33"
structopt = "0.3"
