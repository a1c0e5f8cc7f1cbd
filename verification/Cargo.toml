[package]
name = "pictures_organizer"
version = "0.1.0"
edition = "2021"
publish = false

[dependencies]
chrono = "0.4"
fs_extra = "1"
serde = { version = "1", features = ["derive"] }
serde_json = "1"
