[package]
name = "dsh"
version = "0.1.0"
edition = "2021"

[dependencies]
libc = "*"
nix = { version = "*", features = ["signal"] }
termion = "*"
thiserror = "*"
tinytoken = "*"
