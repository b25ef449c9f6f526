[package]
name = "zephyr"
version = "0.1.0"
edition = "2021"
publish = false

[dependencies]
scraper = "=0.27.0"
encoding_rs = "=0.8.42"
md5 = "=0.8.1"
html-escape = "=0.2.15"
chrono = "=0.4.45"
serde_json = "=1.0.151"
serde = { version = "=1.0.229", features = ["derive"] }
