[package]
name = "schack"
version = "0.1.0"
edition = "2021"
publish = false

[dependencies]
chess = "*"
ggez = "0.7"
