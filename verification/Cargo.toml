[package]
name = "lightblue"
version = "0.1.0"
edition = "2021"
publish = false

[dependencies]
syn = { version = "2", features = ["full"] }
Inflector = "0.11"
walkdir = "2"
anyhow = "1"
