[package]
name = "regtail"
version = "0.1.0"
edition = "2021"
publish = false

[dependencies]
ansi_term = "0.12"
atty = "0.2"
clap = "2"
content_inspector = "0.2"
lru = { version = "0.7", default-features = false }
notify = "4"
pathdiff = "0.2"
regex = "1"
walkdir = "2"
