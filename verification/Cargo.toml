[package]
name = "cackle"
version = "0.1.0"
edition = "2021"
publish = false

[dependencies]
anyhow = "1"
cargo_metadata = "0.18"
crossterm = "0.27"
fxhash = "0.2"
ratatui = "0.23"
serde = { version = "1", features = ["derive"] }
tempfile = "3"
