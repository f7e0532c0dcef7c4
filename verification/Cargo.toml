[package]
name = "xay"
version = "0.1.0"
edition = "2021"
publish = false

[dependencies]
shlex = "*"
anyhow = "*"
serde = { version = "*", features = ["derive"] }
serde_yaml = "*"
structopt = "*"
walkdir = "*"
pathdiff = "*"
termcolor = "*"
