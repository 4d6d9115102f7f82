[package]
name = "pathcomment"
version = "0.1.0"
edition = "2021"
publish = false

[dependencies]
regex = "1"
clap = { version = "4", features = ["derive"] }
ignore = "0.4"
once_cell = "1"
