[package]
name = "markviewer"
version = "0.1.0"
edition = "2021"
publish = false

[dependencies]
base64 = "0.22"
comrak = { version = "=0.43.0", default-features = false, features = ["shortcodes"] }
once_cell = "1"
serde = { version = "1", features = ["derive"] }
syntect = { version = "5", default-features = false, features = ["default-fancy"] }

[dev-dependencies]
regex = "1"
