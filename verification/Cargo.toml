[package]
name = "snaglord"
version = "0.1.0"
edition = "2021"
publish = false

[dependencies]
fuzzy-matcher = "0.3"
strip-ansi-escapes = "0.2"
ratatui = "0.29"
ansi-to-tui = "7"
serde_json = "1"
anyhow = "1"
