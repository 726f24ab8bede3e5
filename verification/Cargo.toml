[package]
name = "kashan786_cli_app"
version = "0.1.0"
edition = "2021"
publish = false

[dependencies]
chrono = "0.4"
clap = "4"
walkdir = "2"
zip = { version = "0.6", default-features = false, features = ["deflate", "time"] }
