[package]
name = "torrent_scraper"
version = "0.1.0"
edition = "2021"
publish = false

[dependencies]
regex = "1"
soup = "0.5"
reqwest = { version = "0.12", default-features = false, features = ["blocking", "rustls-tls"] }
