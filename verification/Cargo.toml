[package]
name = "melos"
version = "0.1.0"
edition = "2021"
publish = false

[dependencies]
midly = "*"
anyhow = "*"
clap = { version = "*", features = ["derive"] }
crossterm = "*"
ratatui = "*"
