[package]
name = "elba"
version = "0.1.0"
edition = "2021"
publish = false

[dependencies]
semver = "=0.9.0"
url = "=1.7.2"
Inflector = "=0.11.4"
serde = { version = "=1.0.229", features = ["derive"] }
toml = "=0.5.11"
sha2 = "*"
hex = "*"
