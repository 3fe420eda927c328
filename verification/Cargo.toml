[package]
name = "defmt_encode"
version = "0.1.0"
edition = "2021"
publish = false

[dependencies]
defmt-macros = "*"
