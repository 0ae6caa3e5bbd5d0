[package]
name = "comrade"
version = "0.1.0"
edition = "2021"
publish = false

[dependencies]
regex = "*"
chrono = "*"
notify = "*"
toml_edit = { version = "*", features = ["serde"] }
serde = { version = "*", features = ["derive"] }
