[package]
name = "codegraph-ui"
version = "0.1.0"
edition = "2021"
publish = false

[dependencies]
axum = "0.8"
open = "5"
rusqlite = { version = "0.37", features = ["bundled"] }
serde = { version = "1", features = ["derive"] }
serde_json = "1"
tokio = { version = "1", features = ["full"] }
