[package]
name = "conglobate"
version = "0.1.0"
edition = "2021"
publish = false

[dependencies]
hex = "0.4"
rustix = { version = "1", features = ["fs", "mount", "net", "process", "system"] }
serde = { version = "1", features = ["derive"] }
serde_yaml = "0.9"
sha2 = "0.10"
thiserror = "2"
