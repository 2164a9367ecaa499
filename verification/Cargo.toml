[package]
name = "lumina"
version = "0.1.0"
edition = "2021"
publish = false

[dependencies]
simple_crypt = "0.2.3"
rand = "0.7.3"
serde_json = "1"
glam = "0.24"
color-print = "*"
