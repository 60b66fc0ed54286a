[package]
name = "ox_browser"
version = "0.1.0"
edition = "2021"
publish = false

[dependencies]
url = "=2.5.8"
xxhash-rust = { version = "=0.8.19", features = ["xxh3"] }
blake3 = "=1.8.7"
texting_robots = "=0.2.2"
serde = { version = "=1.0.229", features = ["derive"] }
serde_json = "=1.0.154"
regex = "=1.13.1"
quick-xml = "=0.37.5"
flate2 = "=1.1.10"
rand = "=0.10.3"
dom_query = "*"
htmd = "*"
tokio = { version = "1", features = ["time", "sync", "rt", "macros"] }
