[package]
name = "noteorg"
version = "0.1.0"
edition = "2021"
publish = false

[dependencies]
chrono = "0.4"
clap = { version = "4", features = ["derive"] }
clap_complete = "4"
crossterm = "*"
gray_matter = "*"
home-dir = "*"
regex = "1"
serde = { version = "1", features = ["derive"] }
