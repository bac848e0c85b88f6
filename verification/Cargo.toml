[package]
name = "tirith_core"
version = "0.1.0"
edition = "2021"
publish = false

[dependencies]
url = "*"
unicode-script = "*"
serde = { version = "*", features = ["derive"] }
serde_json = "*"
