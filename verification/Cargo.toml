[package]
name = "raw_read"
version = "0.1.0"
edition = "2021"
publish = false

[dependencies]
colored = "2"
memmap = "0.7"
structopt = "0.3"
