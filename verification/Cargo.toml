[package]
name = "poodle"
version = "0.1.0"
edition = "2021"
publish = false

[dependencies]
zip = "*"
ssh2 = "*"
serde = { version = "*", features = ["derive"] }
serde_json = "*"
