[package]
name = "kittyalpha"
version = "0.1.0"
edition = "2021"
publish = false

[dependencies]
time = { version = "=0.3.55", features = ["formatting", "parsing"] }
serde = { version = "=1.0.229", features = ["derive"] }
serde_json = "=1.0.154"
anyhow = "=1.0.104"
reqwest = { version = "=0.13.5", default-features = false, features = ["json"] }
sha2 = "0.10"
hex = "0.4"
