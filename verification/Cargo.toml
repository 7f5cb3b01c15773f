[package]
name = "crawler"
version = "0.1.0"
edition = "2021"
publish = false

[dependencies]
html5ever = "0.26"
url = "2"
async-std = "1"
surf = "2"
