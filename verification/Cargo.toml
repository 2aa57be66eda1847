[package]
name = "ocean"
version = "0.1.0"
edition = "2021"
publish = false

[dependencies]
arabic_reshaper = "*"
colored = "*"
crossterm = "*"
dirs = "*"
nix = { version = "*", features = ["user", "fs"] }
rustyline = "*"
unicode-normalization = "*"
unicode-width = "*"
