[package]
name = "gamecore"
version = "0.1.0"
edition = "2021"
publish = false

[dependencies]
specs = "0.10"
rayon = "0.8"
