[package]
name = "rgrep"
version = "1.0.0"
edition = "2021"
publish = false

[dependencies]
anyhow = "1"
clap = { version = "4", features = ["derive"] }
termcolor = "1"
walkdir = "2"
