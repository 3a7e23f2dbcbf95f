[package]
name = "fugue"
version = "0.1.0"
edition = "2021"
publish = false

[dependencies]
midly = "0.5"
http = "1"
serde = { version = "1", features = ["derive"] }
serde_json = "1"
chrono = { version = "0.4", features = ["serde"] }
uuid = { version = "1", features = ["v4", "serde"] }
jsonwebtoken = "9"
cookie = "0.18"
time = "0.3"
bcrypt = "0.17"
axum = { version = "0.8", features = ["ws", "multipart", "macros"] }
axum-extra = { version = "0.10", features = ["cookie"] }
tokio = { version = "1", features = ["full"] }
futures-util = "0.3"
tracing = "0.1"
tracing-subscriber = { version = "0.3", features = ["env-filter"] }
dotenvy = "0.15"
tokio-tungstenite = "0.26"
reqwest = { version = "0.12", default-features = false, features = ["multipart", "json", "rustls-tls"] }
sea-orm = { version = "1", default-features = false, features = ["sqlx-postgres", "runtime-tokio-rustls", "macros", "with-chrono", "with-uuid"] }
sea-orm-migration = { version = "1", default-features = false, features = ["sqlx-postgres", "runtime-tokio-rustls"] }
sea-query = "0.32"
async-trait = "0.1"
utoipa = "5"
midir = "0.10"
