[package]
name = "derived_validation"
version = "0.1.0"
edition = "2021"
publish = false

[dependencies]
anyhow = "=1.0.104"
clap = "=2.34.0"
futures = "=0.3.34"
regex = "=1.13.1"
serde = { version = "=1.0.229", features = ["derive"] }
serde_derive = "=1.0.229"
slog = "=2.8.2"
toml = "=0.5.11"
