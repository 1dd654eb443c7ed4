[package]
name = "bucket_store"
version = "0.1.0"
edition = "2021"
publish = false

[dependencies]
sha2 = "*"
sanitize-filename = "*"
serde = { version = "*", features = ["derive"] }
serde_json = "*"
anyhow = "*"
thiserror = "*"
clap = "*"
futures = "*"
actix-web = "*"
actix-multipart = "*"
