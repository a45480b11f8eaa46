[package]
name = "mdbook-abbr"
version = "0.1.0"
edition = "2021"
publish = false

[dependencies]
regex = "1"
log = "0.4"
env_logger = "*"
mdbook-preprocessor = "*"
serde = { version = "1", features = ["derive"] }
serde_json = "1"
