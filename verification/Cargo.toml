[package]
name = "chunimidi"
version = "0.1.0"
edition = "2021"
publish = false

[dependencies]
color-eyre = "*"
midir = "*"
signal-hook = "*"
tracing = "*"
tracing-subscriber = { version = "*", features = ["env-filter"] }
