[package]
name = "connect4"
version = "0.1.0"
edition = "2021"
publish = false

[dependencies]
rand = "0.8"
rayon = "1"
tracing = "0.1"
tracing-chrome = "0.7"
tracing-subscriber = "0.3"
