[package]
name = "inori"
version = "0.1.0"
edition = "2021"
publish = false

[dependencies]
mpd = "0.1"
nucleo-matcher = "0.3"
ratatui = { version = "0.28", features = ["serde"] }
toml = "0.8"
