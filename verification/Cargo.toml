[package]
name = "sideview"
version = "0.1.0"
edition = "2021"
publish = false

[dependencies]
comrak = "=0.59.0"
diffy = "=0.5.2"
similar = "=3.2.1"
csv = "=1.4.0"
percent-encoding = "=2.3.2"
serde = { version = "=1.0.229", features = ["derive"] }
serde_json = "=1.0.154"
toml = "=1.1.8"
uuid = { version = "=1.29.0", features = ["v4"] }
anyhow = "=1.0.104"
clap = { version = "=4.6.7", features = ["derive"] }
mime_guess = "2"
sha2 = "0.10"
