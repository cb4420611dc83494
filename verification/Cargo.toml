[package]
name = "file_backup"
version = "0.1.0"
edition = "2021"
publish = false

[dependencies]
chrono = { version = "0.4", default-features = false, features = ["std", "alloc"] }
image = { version = "0.25", default-features = false, features = ["png", "jpeg"] }
