[package]
name = "llm_gateway"
version = "0.1.0"
edition = "2021"
publish = false

[dependencies]
serde_json = { version = "=1.0.151", features = ["preserve_order"] }
serde = { version = "=1.0.229", features = ["derive"] }
rocket = { version = "=0.5.1", features = ["json"] }
rocket_cors = "=0.6.0"
reqwest = { version = "=0.13.5", default-features = false, features = ["json"] }
rusqlite = { version = "=0.40.2", features = ["bundled"] }
indexmap = { version = "=2.14.2", features = ["serde"] }
dirs = "=7.0.0"
