[package]
name = "fried_world"
version = "0.1.0"
edition = "2021"
publish = false

[dependencies]
chrono = { version = "0.4", features = ["serde"] }
hoedown = "6"
serde = { version = "1", features = ["derive"] }
serde_json = "1"
walkdir = "2"
lazy_static = "1"
rand = "0.8"
rocket = "0.5"
rocket_dyn_templates = { version = "0.2", features = ["handlebars"] }
