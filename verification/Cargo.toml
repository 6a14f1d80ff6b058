[package]
name = "notemancy_core"
version = "0.1.0"
edition = "2021"
publish = false

[dependencies]
anyhow = "1"
rayon = "1"
regex = "1"
serde_json = "1"
serde_yaml = "0.9"
walkdir = "2"
