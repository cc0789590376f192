[package]
name = "sph_notifier"
version = "0.1.0"
edition = "2021"
publish = false

[dependencies]
scraper = "=0.27.0"
reqwest = { version = "=0.13.5", features = ["blocking", "cookies", "form"] }
reqwest_cookie_store = "=0.10.0"
postgres = { version = "=0.19.14", features = ["with-chrono-0_4", "with-serde_json-1"] }
chrono = "=0.4.45"
serde = { version = "=1.0.229", features = ["derive"] }
serde_json = "=1.0.151"
serde_yaml = "=0.9.34"
log = "=0.4.34"
simple_logger = "=5.2.0"
