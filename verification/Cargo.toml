[package]
name = "charref"
version = "0.1.0"
edition = "2021"
publish = false

[dependencies]
entities = "=1.0.1"
