[package]
name = "indexer_core"
version = "0.1.0"
edition = "2021"
publish = false

[dependencies]
kanal = "=0.1.1"
tokio = { version = "=1.53.2", features = ["macros", "rt", "sync", "time"] }
