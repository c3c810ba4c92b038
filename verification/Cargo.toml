[package]
name = "panops-core"
version = "0.1.0"
edition = "2021"
publish = false

[dependencies]
chrono = "0.4"
hound = "3.5"
rayon = "1"
serde = { version = "1", features = ["derive"] }
serde_json = "1"
sha2 = "0.10"
thiserror = "2"
tracing = "0.1"
