[package]
name = "ui_designer"
version = "0.1.0"
edition = "2021"
publish = false

[dependencies]
image = "*"
macroquad = "*"
notify = "*"
serde = { version = "*", features = ["derive"] }
serde_json = "*"
