[package]
name = "rsloglib"
version = "0.1.0"
edition = "2021"
publish = false

[dependencies]
redis = { version = "0.20", default-features = false }
log = "0.4"
stderrlog = "0.5"
serde = { version = "1", features = ["derive"] }
serde_json = "1"
