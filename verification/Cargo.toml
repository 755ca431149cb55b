[package]
name = "aweb"
version = "0.1.0"
edition = "2021"
publish = false

[dependencies]
fuzzy-matcher = "*"
serde = { version = "*", features = ["derive"] }
ron = "*"
directories = "*"
