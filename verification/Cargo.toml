[package]
name = "link_extractor"
version = "0.1.0"
edition = "2021"
publish = false

[dependencies]
url = "2"
scraper = "*"
clap = { version = "4", features = ["derive"] }
reqwest = { version = "*", features = ["blocking"] }
