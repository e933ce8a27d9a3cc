[package]
name = "typemach"
version = "0.1.0"
edition = "2021"
publish = false

[dependencies]
async-trait = "0.1"
deadpool-postgres = "0.14"
serde = { version = "1", features = ["derive"] }
serde_json = "1"
thiserror = "2"
tokio = { version = "1", features = ["macros", "rt", "sync", "time"] }
tokio-rusqlite = { version = "0.6", features = ["bundled"] }
tracing = "0.1"
