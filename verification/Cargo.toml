[package]
name = "csvedit"
version = "0.1.0"
edition = "2021"
publish = false

[dependencies]
ahash = "0.8"
ansi_colours = "1"
clap = { version = "4", features = ["derive"] }
color-eyre = "0.6"
crossterm = "0.28"
csv = "1"
ratatui = "0.29"
