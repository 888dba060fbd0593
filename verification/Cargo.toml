[package]
name = "app_launcher"
version = "0.1.0"
edition = "2021"
publish = false

[dependencies]
base64 = "*"
icns = "*"
plist = "*"
serde = { version = "*", features = ["derive"] }
serde_json = "*"
dirs = "*"
