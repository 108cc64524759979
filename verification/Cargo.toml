[package]
name = "sdl_parser"
version = "0.1.0"
edition = "2021"
publish = false

[dependencies]
url = "=2.5.8"
