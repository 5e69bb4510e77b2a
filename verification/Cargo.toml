[package]
name = "tile_editor"
version = "0.1.0"
edition = "2021"
publish = false

[dependencies]
hecs = "*"
macroquad = { version = "0.3", default-features = false }
serde = { version = "1", features = ["derive"] }
serde_json = "1"
