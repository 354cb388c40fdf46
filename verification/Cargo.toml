[package]
name = "treff"
version = "0.1.0"
edition = "2021"
publish = false

[dependencies]
ammonia = "4"
anyhow = "1"
axum = { version = "0.8", features = ["multipart"] }
axum-extra = { version = "*", features = ["cookie", "cookie-private"] }
base64 = "0.22"
comrak = { version = "*", default-features = false }
futures-util = "0.3"
hmac = "*"
jiff = "0.2"
lettre = { version = "0.11", default-features = false, features = ["builder", "smtp-transport", "tokio1-rustls-tls", "hostname"] }
maud = { version = "0.27", features = ["axum"] }
openidconnect = "4"
percent-encoding = "2"
rand = "*"
serde = { version = "1", features = ["derive"] }
serde_json = "1"
sha2 = "*"
sqlx = { version = "*", default-features = false, features = ["runtime-tokio", "sqlite"] }
thiserror = "2"
time = { version = "0.3", features = ["parsing", "formatting", "macros"] }
tokio = { version = "1", features = ["full"] }
toml = "*"
tower-http = { version = "0.6", features = ["set-header"] }
url = "2"
