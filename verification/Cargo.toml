[package]
name = "lakedb"
version = "0.1.0"
edition = "2021"
publish = false

[dependencies]
lmdb-rkv = "0.14"
serde = { version = "1", features = ["derive"] }
serde_json = "1"

[dev-dependencies]
tempfile = "3"
