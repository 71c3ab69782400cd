[package]
name = "rglint"
version = "0.1.0"
edition = "2021"
publish = false

[dependencies]
regex = "1"
apollo-compiler = "1"
apollo-parser = "0.8"
serde = { version = "1", features = ["derive"] }
serde_json = "1"
toml = "0.8"
thiserror = "2"
pretty_assertions = "1"
insta = "1"
