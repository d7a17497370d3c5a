[package]
name = "huak"
version = "0.1.0"
edition = "2021"
publish = false

[dependencies]
pep440_rs = "=0.7.3"
pyproject-toml = "=0.13.7"
serde = { version = "=1.0.229", features = ["derive"] }
termcolor = "=1.4.1"
toml_edit = { version = "=0.25.15", features = ["serde"] }
