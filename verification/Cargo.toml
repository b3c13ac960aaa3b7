[package]
name = "ragcore"
version = "0.1.0"
edition = "2021"
publish = false

[dependencies]
serde = { version = "*", features = ["derive"] }
serde_json = "*"
tokio = { version = "*", features = ["rt-multi-thread", "macros", "sync"] }
axum = { version = "0.6", features = ["ws"] }
reqwest = { version = "*", default-features = false, features = ["json", "multipart"] }
sqlx = { version = "*", default-features = false, features = ["runtime-tokio", "postgres"] }
dotenvy = "*"
futures-util = "*"
poppler-rs = "*"
rust-bert = { version = "*", default-features = false }
