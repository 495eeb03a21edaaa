[package]
name = "kothic"
version = "0.1.0"
edition = "2021"
publish = false

[dependencies]
clap = { version = "4", features = ["derive"] }
indexmap = "=2.14.2"
md-5 = "=0.10.6"
regex = "=1.13.1"
