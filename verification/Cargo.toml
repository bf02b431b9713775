[package]
name = "git_remote_swap"
version = "0.1.0"
edition = "2021"
publish = false

[dependencies]
git2 = "*"
walkdir = "*"
clap = "*"
config = "*"
serde = { version = "*", features = ["derive"] }

[dev-dependencies]
tempfile = "*"
