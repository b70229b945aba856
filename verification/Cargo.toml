[package]
name = "bawal_pathfinder"
version = "0.1.0"
edition = "2021"
publish = false

[dependencies]
bevy = { version = "0.18", default-features = false }
bevy_html_tailwind = { version = "*", default-features = false }
serde = { version = "1", features = ["derive"] }
serde_json = "1"
tungstenite = "*"
url = "2"
