[package]
name = "discord-urls-extractor"
version = "0.1.0"
edition = "2021"
publish = false

[dependencies]
regex = "1"
tinyjson = "2"
rusqlite = "*"
clap = { version = "4", features = ["derive"] }
