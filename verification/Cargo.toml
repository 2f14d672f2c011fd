[package]
name = "nrw_freestyle_cup_registration"
version = "0.1.0"
edition = "2021"
publish = false

[dependencies]
anyhow = "1"
askama = "0.14"
axum = { version = "0.8", features = ["multipart", "macros"] }
axum-embed = "0.1"
axum-extra = { version = "0.10", features = ["cookie"] }
clap = { version = "4", features = ["derive", "env"] }
dotenvy = "0.15"
jsonwebtoken = "9"
lettre = { version = "0.11", default-features = false, features = ["builder", "smtp-transport", "tokio1", "tokio1-native-tls"] }
password-auth = "1"
rust-embed = "8"
serde = { version = "1", features = ["derive"] }
serde_json = "1"
sqlx = { version = "0.8", default-features = false, features = ["runtime-tokio", "sqlite", "uuid", "time", "json", "migrate"] }
thiserror = "2"
time = { version = "0.3", features = ["serde-well-known", "macros"] }
tokio = { version = "1", features = ["full"] }
tower = "0.5"
tower-http = { version = "0.6", features = ["request-id", "trace", "fs"] }
tracing = "0.1"
tracing-subscriber = "0.3"
url = "2"
utoipa = { version = "5", features = ["axum_extras", "uuid", "time"] }
utoipa-axum = "0.2"
utoipa-swagger-ui = { version = "9", features = ["axum", "vendored"] }
uuid = { version = "1", features = ["v4", "v7", "serde"] }
