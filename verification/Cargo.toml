[package]
name = "lex_preview"
version = "0.1.0"
edition = "2021"
publish = false

[dependencies]
html5ever = "=0.27.0"
markup5ever_rcdom = "=0.3.0"
anyhow = "=1.0.104"
log = "=0.4.35"
serde = { version = "=1.0.229", features = ["derive"] }
serde_json = "=1.0.154"
toml = "=0.8.23"
rust-embed = { version = "=8.13.0", features = ["interpolate-folder-path"] }
