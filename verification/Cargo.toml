[package]
name = "fc_ui"
version = "0.2.18"
edition = "2021"
publish = false

[dependencies]
unicode-width = "0.2"
anyhow = "1"
tracing = "0.1"
tracing-subscriber = { version = "0.3", features = ["env-filter"] }
copypasta = "0.10"
