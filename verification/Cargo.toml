[package]
name = "procpatch"
version = "0.1.0"
edition = "2021"

[dependencies]
nix = { version = "*", features = ["uio", "process"] }
