[package]
name = "gv"
version = "0.1.0"
edition = "2021"
publish = false

[dependencies]
unicode-width = "0.2"
anyhow = "1"
clap = { version = "4", features = ["derive"] }
crossterm = "0.28"
git2 = { version = "0.19", default-features = false }
ratatui = "0.29"
syntect = { version = "5", default-features = false, features = ["default-fancy"] }
