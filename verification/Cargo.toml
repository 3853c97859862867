[package]
name = "tsumugu"
version = "0.1.0"
edition = "2021"
publish = false

[dependencies]
anyhow = "1"
apt-parser = "*"
chrono = "0.4"
clap = { version = "4", features = ["derive"] }
console = "*"
crossbeam-deque = "*"
filetime = "*"
flate2 = "1"
futures-util = "0.3"
humansize = "*"
indicatif = "*"
regex = "1"
reqwest = { version = "*", features = ["blocking", "stream"] }
scraper = "*"
tokio = { version = "1", features = ["rt"] }
tracing = "0.1"
tracing-subscriber = { version = "*", features = ["env-filter"] }
url = "2"
walkdir = "2"
