[package]
name = "fuzzypicker"
version = "0.1.0"
edition = "2021"
publish = false

[dependencies]
crossterm = "0.27"
fuzzy-matcher = "0.3"
