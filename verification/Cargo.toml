[package]
name = "mediawiki_watchlist"
version = "0.1.0"
edition = "2021"
publish = false

[dependencies]
serde_json = "=1.0.151"
serde = { version = "1", features = ["derive"] }
bitbar = "=0.10.1"
futures = "0.3"
mediawiki = "=0.2.15"
reqwest = { version = "0.12", features = ["rustls-tls"] }
xdg = "=3.0.0"
