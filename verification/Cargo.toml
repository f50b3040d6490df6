[package]
name = "exconman"
version = "0.1.0"
edition = "2021"
publish = false

[dependencies]
regex = "*"
serde = "*"
serde_derive = "*"
serde_json = "*"
shellexpand = "*"
structopt = "*"
tilde-expand = "*"
