[package]
name = "ptagslib"
version = "0.1.0"
edition = "2021"
publish = false

[dependencies]
anyhow = "1"
dirs = "*"
nix = { version = "*", features = ["fs"] }
serde = "1"
serde_derive = "1"
structopt = "0.3"
structopt-toml = "0.5"
tempfile = "3"
thiserror = "*"
time = "0.1"
toml = "0.5"
