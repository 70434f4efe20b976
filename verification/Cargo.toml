[package]
name = "aunify"
version = "0.1.0"
edition = "2021"
publish = false

[dependencies]
clap = "2"
rustyline = "6"
nix = "0.17"
