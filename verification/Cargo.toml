[package]
name = "ullis"
version = "0.1.0"
edition = "2021"
publish = false

[dependencies]
anyhow = "=1.0.104"
clap = { version = "=4.6.7", features = ["derive"] }
objc2 = "*"
objc2-foundation = "*"
objc2-metal = "*"
rand = "=0.9.5"
serde = { version = "=1.0.229", features = ["derive"] }
serde_json = "=1.0.154"
toml = "=0.8.23"
