[package]
name = "lightd"
version = "0.1.0"
edition = "2021"
publish = false

[dependencies]
anyhow = "1"
axum = "0.7"
bollard = "0.16"
bzip2 = "0.4"
chrono = { version = "0.4", features = ["serde"] }
flate2 = "1"
mime_guess = "2"
reqwest = { version = "0.11", default-features = false, features = ["json", "rustls-tls"] }
serde = { version = "1", features = ["derive"] }
serde_json = "1"
tar = "0.4"
tokio = { version = "1", features = ["full"] }
tracing = "0.1"
zip = { version = "0.6", default-features = false, features = ["deflate"] }
