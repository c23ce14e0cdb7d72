[package]
name = "issueboss"
version = "0.1.0"
edition = "2021"
publish = false

[dependencies]
structopt = "*"
toml_edit = "*"
yansi = "*"
