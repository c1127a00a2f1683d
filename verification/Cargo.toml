[package]
name = "roster_sync"
version = "0.1.0"
edition = "2021"
publish = false

[dependencies]
anyhow = "1"
dotenv = "0.15"
env_logger = "0.9"
fallible-iterator = "0.2"
log = "0.4"
poise = "0.3"
reqwest = { version = "0.11", features = ["cookies"] }
rusqlite = "0.28"
scraper = "=0.29.0"
tokio = { version = "1", features = ["macros", "rt-multi-thread"] }
tokio_schedule = "0.3"
