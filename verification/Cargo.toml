[package]
name = "indexer_lineage"
version = "0.1.0"
edition = "2021"
publish = false

[dependencies]
cached = "=0.51.4"
sqlx = { version = "=0.6.3", default-features = false, features = ["runtime-tokio-rustls", "postgres", "bigdecimal"] }
tokio = { version = "=1.53.2", features = ["rt-multi-thread", "macros", "sync"] }
anyhow = "=1.0.104"
clap = { version = "=3.2.25", features = ["derive", "env"] }
dotenv = "=0.15.0"
futures = "=0.3.34"
