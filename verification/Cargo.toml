[package]
name = "vs_mode"
version = "0.1.0"
edition = "2021"
publish = false

[dependencies]
anyhow = "1"
crossterm = { version = "*", default-features = false }
tokio = { version = "1", features = ["rt", "rt-multi-thread", "sync"] }
