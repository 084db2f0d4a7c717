[package]
name = "removestaller"
version = "1.0.2"
edition = "2021"
publish = false

[dependencies]
gtk4 = { version = "*", features = ["v4_10"] }
libadwaita = { version = "*", features = ["v1_5"] }
