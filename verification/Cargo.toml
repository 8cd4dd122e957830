[package]
name = "robosim"
version = "0.1.0"
edition = "2021"
publish = false

[dependencies]
serde_json = "1"
serde = { version = "1", features = ["derive"] }
glam = { version = "0.30", features = ["serde"] }
rand = "0.9"
thiserror = "2"
tungstenite = "0.27"
clap = { version = "4", features = ["derive"] }
crossterm = "0.29"
anyhow = "1"
