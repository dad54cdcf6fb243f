[package]
name = "serve_md"
version = "0.1.0"
edition = "2021"
publish = false

[dependencies]
emojis = "=0.9.0"
regex = "=1.13.1"
pulldown-cmark = "=0.13.4"
gray_matter = { version = "=0.3.2", features = ["json", "toml", "yaml"] }
serde = { version = "=1.0.229", features = ["derive"] }
serde_json = "=1.0.151"
serde_yaml = "=0.9.34"
serde-pickle = "=1.2.0"
toml = "=1.1.7"
anyhow = "=1.0.104"
clap = { version = "=4.6.7", features = ["derive"] }
axum = "=0.8.9"
tokio = { version = "=1.53.2", features = ["rt", "rt-multi-thread", "macros", "fs", "signal", "net"] }
