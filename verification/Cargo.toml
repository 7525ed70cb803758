[package]
name = "portabletext"
version = "0.1.0"
edition = "2021"
publish = false

[dependencies]
pulldown-cmark = { version = "0.8", default-features = false }
rand = "0.8"
serde = { version = "1", features = ["derive"] }
