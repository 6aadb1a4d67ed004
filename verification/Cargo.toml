[package]
name = "vivid"
version = "0.1.0"
edition = "2021"
publish = false

[dependencies]
ansi_colours = "1"
clap = { version = "4", features = ["cargo", "color", "suggestions", "wrap_help"] }
etcetera = "0.8"
rust-embed = { version = "8", features = ["debug-embed"] }
yaml-rust = "0.4"
