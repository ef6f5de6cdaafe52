[package]
name = "mdbook_snips"
version = "0.1.0"
edition = "2021"
publish = false

[dependencies]
mdbook = { version = "0.4", default-features = false }
serde = { version = "1", features = ["derive"] }
toml = "0.5"
