[package]
name = "meeting_cost_tracker"
version = "0.1.0"
edition = "2021"
publish = false

[dependencies]
crossterm = "0.28"
ratatui = "0.29"
serde = { version = "1", features = ["derive"] }
thiserror = "1"
toml = "0.8"
