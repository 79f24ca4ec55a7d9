[package]
name = "cargo-trim"
version = "0.1.0"
edition = "2021"
publish = false

[dependencies]
anyhow = "1"
clap = "2"
colored = "2"
fs_extra = "1"
structopt = "0.3"
