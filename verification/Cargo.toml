[package]
name = "skipjackd"
version = "0.1.0"
edition = "2021"
publish = false

[dependencies]
anyhow = "1"
async-trait = "0.1"
bytes = "1"
chrono = "0.4"
clap = { version = "4", features = ["derive"] }
dirs = "*"
html-to-markdown-rs = "*"
ipnet = "2"
libc = "0.2"
rand = "0.8"
reqwest = { version = "0.12", default-features = false, features = ["rustls-tls", "socks"] }
rmcp = { version = "*", features = ["server", "transport-io"] }
rusqlite = { version = "*", features = ["bundled"] }
rustls = { version = "0.23", default-features = false, features = ["ring", "std", "tls12"] }
schemars = "*"
scraper = "*"
serde = { version = "1", features = ["derive"] }
serde_json = "1"
sha2 = "0.10"
socket2 = "*"
thiserror = "*"
tokio = { version = "1", features = ["full"] }
toml = "0.8"
tracing = "0.1"
tracing-subscriber = { version = "0.3", features = ["env-filter"] }
url = "2"
uuid = { version = "1", features = ["v4"] }
