[package]
name = "poexam"
version = "0.1.0"
edition = "2021"
publish = false

[dependencies]
clap = { version = "4", features = ["derive"] }
colored = "3"
encoding_rs = "0.8"
ignore = "0.4"
memchr = "2"
rayon = "1"
serde = { version = "1", features = ["derive"] }
serde_json = "1"
spellbook = "*"
