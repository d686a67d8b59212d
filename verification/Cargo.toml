[package]
name = "relevation"
version = "0.1.0"
edition = "2021"
publish = false

[dependencies]
lru = "*"
clap = "*"
env_logger = "*"
gdal = "*"
log = "*"
serde = { version = "*", features = ["derive"] }
toml = "*"
walkdir = "*"
