[package]
name = "clip_catalog"
version = "0.1.0"
edition = "2021"
publish = false

[dependencies]
actix-web = "*"
actix-files = "*"
actix-identity = "*"
actix-session = { version = "*", features = ["cookie-session"] }
handlebars = "*"
serde = { version = "*", features = ["derive"] }
serde_json = "*"
env_logger = "*"
log = "*"
sqlx = { version = "*", default-features = false, features = ["runtime-tokio", "postgres"] }
