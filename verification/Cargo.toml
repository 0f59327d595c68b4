[package]
name = "query_server"
version = "0.1.0"
edition = "2021"
publish = false

[dependencies]
polars = { version = "*", default-features = false, features = ["lazy", "parquet", "ipc"] }
zstd = "*"
base64 = "*"
serde_json = "*"
tokio = { version = "*", features = ["rt-multi-thread", "macros", "sync", "time"] }
axum = "*"
tower-http = { version = "*", features = ["cors"] }
