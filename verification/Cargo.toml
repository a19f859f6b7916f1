[package]
name = "track"
version = "0.1.0"
edition = "2021"
publish = false

[dependencies]
chrono = "0.4"
clap = "2"
directories = "*"
prettytable-rs = "*"
serde = { version = "1", features = ["derive"] }
serde_json = "1"
