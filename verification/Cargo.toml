[package]
name = "fig2img"
version = "0.1.0"
edition = "2021"
publish = false

[dependencies]
clap = { version = "=4.6.7", features = ["derive"] }
futures = "=0.3.34"
image = { version = "=0.25.10", default-features = false, features = ["png"] }
ravif = "=0.12.0"
reqwest = { version = "=0.13.5", default-features = false }
rgb = "=0.8.53"
serde = { version = "=1.0.229", features = ["derive"] }
serde_json = "=1.0.151"
tokio = { version = "=1.53.2", features = ["full"] }
