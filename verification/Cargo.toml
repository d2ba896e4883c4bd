[package]
name = "cypher_aes"
version = "0.1.0"
edition = "2021"
publish = false

[dependencies]
aes = "0.8"
clap = "4"
hex = "0.4"
