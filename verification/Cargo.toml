[package]
name = "hyperlines"
version = "0.1.0"
edition = "2021"
publish = false

[dependencies]
url = "2"
reqwest = { version = "*", default-features = false, features = ["blocking"] }
scraper = "*"
tui = "0.19"
crossterm = "0.25"
