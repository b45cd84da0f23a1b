[package]
name = "skillsupport"
version = "0.2.0"
edition = "2021"
publish = false

[dependencies]
serde = { version = "1", features = ["derive"] }
serde_json = "1"
serde_yaml_ng = "*"
sha2 = "0.10"
thiserror = "*"
toml = "*"
tungstenite = "*"

[dev-dependencies]
tempfile = "*"
