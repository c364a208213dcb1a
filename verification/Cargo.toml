[package]
name = "snake_game"
version = "0.1.0"
edition = "2021"

[dependencies]
rand = "0.9"
crossterm = "0.28"
serde = { version = "1", features = ["derive"] }
toml = "0.8"
