[package]
name = "nexusflix"
version = "0.1.0"
edition = "2021"
publish = false

[dependencies]
axum = "=0.8.9"
directories = "=6.0.0"
dotenvy = "=0.15.7"
hyper = "=1.12.0"
infer = "=0.22.0"
reqwest = { version = "=0.13.5", default-features = false, features = ["json", "query"] }
serde = { version = "=1.0.229", features = ["derive"] }
serde_json = "=1.0.151"
tokio = { version = "=1.53.2", features = ["full"] }
walkdir = "=2.5.0"
