[package]
name = "challenge_checker"
version = "0.1.0"
edition = "2021"
publish = false

[dependencies]
clap = { version = "4", features = ["cargo", "derive"] }
serde = { version = "1", features = ["derive"] }
serde_yaml = "0.9"
termion = "*"
tinytemplate = "1"
