[package]
name = "notifier"
version = "0.1.0"
edition = "2021"
publish = false

[dependencies]
arc-swap = "=1.9.2"
anyhow = "=1.0.104"
async-trait = "=0.1.92"
chrono = "=0.4.45"
futures = "=0.3.34"
getopts = "=0.2.24"
percent-encoding = "=2.3.2"
regex = "=1.13.1"
reqwest = { version = "=0.13.5", default-features = false }
rss = "=2.1.2"
serde = { version = "=1.0.229", features = ["derive"] }
serde_json = "=1.0.151"
tokio = { version = "=1.53.2", features = ["rt-multi-thread", "macros", "time", "sync"] }
warp = { version = "=0.4.3", features = ["server"] }
