[package]
name = "cargo_edit_completion"
version = "0.1.0"
edition = "2021"
publish = false

[dependencies]
anyhow = "1"
clap = { version = "*", features = ["derive"] }
either = "1"
home = "*"
itertools = "*"
regex = "1"
semver = "1"
serde = { version = "1", features = ["derive"] }
serde_json = "1"
