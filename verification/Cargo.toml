[package]
name = "paseto_builder"
version = "0.1.0"
edition = "2021"
publish = false

[dependencies]
orion = "*"
serde_json = "*"
