[package]
name = "alog"
version = "0.1.0"
edition = "2021"
publish = false

[dependencies]
anyhow = "1"
askama = "0.12"
axum = "0.8"
chrono = "0.4"
clap = { version = "4.5", features = ["derive"] }
crossbeam-channel = "0.5"
notify = "7"
pulldown-cmark = { version = "0.13", default-features = false, features = ["html"] }
regex = "1"
rss = "2"
serde = { version = "1", features = ["derive"] }
serde_derive = "1"
serde_json = "1"
serde_yaml = "0.9"
tera = { version = "1", default-features = false }
tokio = { version = "1.40", features = ["full"] }
toml = "0.8"
tower-http = { version = "0.6", features = ["fs"] }
tracing-subscriber = { version = "0.3", features = ["env-filter"] }
urlencoding = "2"
walkdir = "2"
