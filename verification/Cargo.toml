[package]
name = "nero"
version = "0.1.0"
edition = "2021"
publish = false

[dependencies]
anyhow = "=1.0.104"
chrono = "=0.4.45"
colored = "=3.1.1"
reqwest = { version = "=0.13.5", default-features = false, features = ["json", "query"] }
serde_json = "=1.0.151"
tabled = "=0.22.0"
tokio = { version = "=1.53.2", default-features = false, features = ["rt", "macros"] }
