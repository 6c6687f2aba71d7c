[package]
name = "sift"
version = "0.1.0"
edition = "2021"
publish = false

[dependencies]
blake3 = "*"
serde = { version = "1", features = ["derive"] }
serde_json = "1"
bincode = "1"
fs2 = "*"
memmap2 = "*"
toml = "*"
directories = "*"
anyhow = "1"
walkdir = "2"
flate2 = "1"
ureq = "3"
html2text = "*"
pdf-extract = "*"
undoc = "*"
clap = { version = "4", features = ["derive"] }
tracing = "0.1"
