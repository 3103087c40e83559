[package]
name = "beads_store"
version = "0.1.0"
edition = "2021"
publish = false

[dependencies]
chrono = "=0.4.45"
dunce = "=1.0.5"
fsqlite-error = "=0.1.19"
fsqlite-types = { version = "=0.1.19", default-features = false }
serde = { version = "=1.0.229", features = ["derive"] }
serde_json = "=1.0.154"
tracing = "=0.1.44"
