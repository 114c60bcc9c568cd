[package]
name = "aboutme"
version = "0.1.0"
edition = "2021"
publish = false

[dependencies]
askama = "0.14"
axum = "0.8"
axum-extra = { version = "0.10", features = ["cookie"] }
diesel = { version = "2.2", features = ["sqlite", "r2d2", "returning_clauses_for_sqlite_3_35"] }
diesel_migrations = "2.2"
dotenvy = "0.15"
oauth2 = "5"
reqwest = { version = "0.12", default-features = false, features = ["json", "rustls-tls"] }
rmcp = { version = "*", features = ["server", "macros", "transport-streamable-http-server"] }
serde = { version = "1", features = ["derive"] }
serde_json = "1"
sha2 = "0.10"
time = "0.3"
tokio = { version = "1", features = ["full"] }
toml = "0.9"
tower-http = { version = "0.6", features = ["fs"] }
tower-livereload = "0.9"
