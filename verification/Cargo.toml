[package]
name = "typface"
version = "0.1.0"
edition = "2021"
publish = false

[dependencies]
clap = { version = "4", features = ["derive"] }
itertools = "0.14"
nix = { version = "0.29", features = ["process"] }
serde = { version = "1", features = ["derive"] }
toml = "0.8"
unscanny = "0.1"
