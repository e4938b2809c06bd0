[package]
name = "pihole_metrics"
version = "0.1.0"
edition = "2021"
publish = false

[dependencies]
envy = "=0.4.2"
rusqlite = { version = "=0.40.2", features = ["bundled", "fallible_uint"] }
serde = { version = "=1.0.229", features = ["derive"] }
