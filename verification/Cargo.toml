[package]
name = "visit"
version = "0.1.0"
edition = "2021"
publish = false

[dependencies]
syn = "1"
