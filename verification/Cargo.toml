[package]
name = "council"
version = "0.1.0"
edition = "2021"
publish = false

[dependencies]
cocoon = "*"
serde_json = "*"
anyhow = "*"
cli-clipboard = "*"
dirs = "*"
rpassword = "*"
