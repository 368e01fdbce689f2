[package]
name = "rics"
version = "0.1.0"
edition = "2021"
publish = false

[dependencies]
anyhow = "1"
chrono = { version = "0.4", default-features = false, features = ["std", "clock", "serde"] }
chrono-tz = "*"
clap = { version = "4", features = ["derive"] }
hex = "0.4"
pdf-extract = "*"
regex = "1"
reqwest = { version = "*", default-features = false, features = ["blocking", "json"] }
scraper = "*"
serde = { version = "1", features = ["derive"] }
serde_json = "1"
sha2 = "0.10"
toml = "*"
tracing = "0.1"
tracing-subscriber = { version = "0.3", features = ["env-filter"] }
url = "2"
walkdir = "2"
