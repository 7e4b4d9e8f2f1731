[package]
name = "vibe_generate"
version = "0.1.0"
edition = "2021"
publish = false

[dependencies]
clap = { version = "*", features = ["derive"] }
console = "*"
dialoguer = "*"
fs_extra = "*"
include_dir = "*"
walkdir = "*"
