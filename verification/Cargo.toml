[package]
name = "kule"
version = "0.1.0"
edition = "2021"
publish = false

[dependencies]
fontdue = "*"
lyon_tessellation = "*"
vector2math = "*"
