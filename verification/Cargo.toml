[package]
name = "collect_media"
version = "0.1.0"
edition = "2021"
publish = false

[dependencies]
anyhow = "*"
chrono = "*"
crossbeam-channel = "*"
exiftool = "*"
num_cpus = "*"
serde_json = "*"
walkdir = "*"
