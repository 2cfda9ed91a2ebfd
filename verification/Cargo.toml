[package]
name = "nanite"
version = "0.1.0"
edition = "2021"
publish = false

[dependencies]
anyhow = "=1.0.104"
camino = "=1.2.6"
clap = { version = "=4.6.7", features = ["derive"] }
clap_complete = "4"
regex = "=1.13.1"
serde = { version = "=1.0.229", features = ["derive"] }
serde_json = "=1.0.154"
serde_yaml = "=0.9.34"
tera = "=1.20.1"
time = { version = "=0.3.55", features = ["serde-well-known"] }
toml = "=1.1.8"
url = "=2.5.8"
