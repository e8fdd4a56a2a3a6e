[package]
name = "catrina"
version = "0.1.0"
edition = "2021"
publish = false

[dependencies]
regex = "1"
substring = "1"
html-minifier = "3"
rand = "0.8"
serde = { version = "1", features = ["derive"] }
serde_derive = "1"
serde_json = "1"
fs_extra = "1"
eyre = "0.6"
color-eyre = "0.6"
clap = "2"
