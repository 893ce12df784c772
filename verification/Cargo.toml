[package]
name = "rust_term"
version = "0.1.0"
edition = "2021"
publish = false

[dependencies]
nix = { version = "=0.30.1", features = ["term", "process", "fs"] }
bpaf = { version = "=0.9.28", features = ["derive"] }
