[package]
name = "swiftflow"
version = "0.1.0"
edition = "2021"
publish = false

[dependencies]
png = "=0.17.16"
jpeg-decoder = { version = "=0.3.2", features = ["platform_independent"] }
serde = { version = "=1.0.229", features = ["derive"] }
toml = "=0.8.23"
clap = { version = "=4.6.7", features = ["derive"] }
