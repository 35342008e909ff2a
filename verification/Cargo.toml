[package]
name = "player_lyrics"
version = "0.1.0"
edition = "2021"
publish = false

[dependencies]
scraper = "*"
reqwest = { version = "0.12", default-features = false, features = ["blocking", "rustls-tls"] }
mpris = "2"
gtk4 = { version = "0.9", features = ["v4_8"] }
