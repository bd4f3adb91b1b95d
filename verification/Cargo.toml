[package]
name = "seeker"
version = "0.1.0"
edition = "2021"
publish = false

[dependencies]
env_logger = "*"
log = "0.4"
regex = "1"
reqwest = "0.11"
scraper = "*"
tokio = { version = "1", features = ["macros", "rt-multi-thread"] }
url = "2"
