[package]
name = "describe_cache"
version = "0.1.0"
edition = "2021"
publish = false

[dependencies]
serde = { version = "=1.0.229", features = ["derive"] }
toml = "=1.1.6"
sqlx-core = { version = "=0.9.0", features = ["offline"] }
sqlx-postgres = { version = "=0.9.0", features = ["offline"] }
