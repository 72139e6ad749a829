[package]
name = "phone_scraper"
version = "0.1.0"
edition = "2021"
publish = false

[dependencies]
anyhow = "1"
clap = { version = "4", features = ["derive"] }
colored = "2"
regex = "1"
reqwest = { version = "0.12", features = ["blocking"] }
