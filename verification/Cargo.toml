[package]
name = "crawlcore"
version = "0.1.0"
edition = "2021"
publish = false

[dependencies]
dashmap = "*"
scraper = "*"
reqwest = { version = "*", default-features = false }
tokio = { version = "*", features = ["rt-multi-thread", "macros", "sync", "fs", "io-util"] }
rusqlite = { version = "*", features = ["bundled"] }
futures = "*"
