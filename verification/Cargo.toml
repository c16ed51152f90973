[package]
name = "igrep_preview"
version = "0.1.0"
edition = "2021"
publish = false

[dependencies]
ansi-to-tui = "4"
clap = { version = "4", features = ["derive"] }
itertools = "0.12"
ratatui = "0.26"
syntect = { version = "5", default-features = false, features = ["default-fancy"] }
