[package]
name = "file_organizer"
version = "0.1.0"
edition = "2021"
publish = false

[dependencies]
sha2 = "*"
anyhow = "*"
clap = { version = "*", features = ["derive"] }
dialoguer = "*"
walkdir = "*"
rayon = "*"
