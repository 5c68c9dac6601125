[package]
name = "chord_track"
version = "0.1.0"
edition = "2021"
publish = false

[dependencies]
midly = "*"
