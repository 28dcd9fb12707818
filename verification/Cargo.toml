[package]
name = "sitelinks"
version = "0.1.0"
edition = "2021"
publish = false

[dependencies]
bzip2 = "0.4"
clap = { version = "4", features = ["derive"] }
lmdb = "0.8"
regex = "1"
serde = { version = "1", features = ["derive"] }
serde_json = "1"
unicode-casefold = "0.2"
zstd = "0.12"
