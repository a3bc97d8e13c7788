[package]
name = "catapulta"
version = "0.1.0"
edition = "2021"
publish = false

[dependencies]
serde_json = "*"
clap = { version = "*", features = ["derive"] }
thiserror = "*"

[dev-dependencies]
caddyfile-rs = "*"
docker-compose-types = "*"
serde_yaml = "*"
