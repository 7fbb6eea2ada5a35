[package]
name = "task_store"
version = "0.1.0"
edition = "2021"
publish = false

[dependencies]
anyhow = "=1.0.104"
heed = "=0.20.5"
log = "=0.4.34"
serde = { version = "=1.0.229", features = ["derive"] }
serde_json = "=1.0.154"
time = { version = "=0.3.55", features = ["serde-well-known", "formatting", "parsing"] }
tokio = { version = "=1.54.1", features = ["rt"] }

[dev-dependencies]
proptest = "=1.12.0"
