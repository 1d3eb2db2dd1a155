[package]
name = "checkpointui"
version = "0.1.0"
edition = "2021"
publish = false

[dependencies]
serde_json = "1"
rand = "0.8"
anyhow = "1"
half = "2"
float8 = "*"
faer = "*"
