[package]
name = "mdbook_spec"
version = "0.1.0"
edition = "2021"
publish = false

[dependencies]
mdbook = { version = "0.4", default-features = false }
pathdiff = "0.2"
regex = "1"
semver = "1"
serde_json = "1"
tempfile = "3"
