[package]
name = "hyperwm"
version = "0.3.0"
edition = "2021"
publish = false

[dependencies]
serde = { version = "1", features = ["derive"] }
serde_json = "1"
toml = "*"
accessibility-sys = "*"
core-foundation = "*"
core-foundation-sys = "*"
core-graphics = "*"
objc2 = "*"
objc2-app-kit = "*"
objc2-foundation = "*"
block2 = "*"
