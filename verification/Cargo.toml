[package]
name = "locked_in"
version = "0.1.0"
edition = "2021"
publish = false

[dependencies]
regex = "1"
serde_json = "1"
colored = "*"
ignore = "0.4"
rayon = "1"
