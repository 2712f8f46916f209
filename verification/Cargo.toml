[package]
name = "small_talk"
version = "0.1.0"
edition = "2021"
publish = false

[dependencies]
json = "0.12"
serde = { version = "1", features = ["derive"] }
serde_json = "1"
chrono = "0.4"
color-eyre = "0.6"
crossterm = "0.27"
ratatui = "0.26"
diesel = { version = "2", features = ["sqlite"] }
