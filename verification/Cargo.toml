[package]
name = "web2app"
version = "0.1.0"
edition = "2021"
publish = false

[dependencies]
tao = "*"
wry = "*"
dunce = "1"
