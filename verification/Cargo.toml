[package]
name = "archiver"
version = "0.1.0"
edition = "2021"
publish = false

[dependencies]
regex = "1"
rusqlite = "*"
gtk4 = { version = "*", features = ["v4_12"] }
libadwaita = "*"
