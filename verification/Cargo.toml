[package]
name = "routines"
version = "0.1.0"
edition = "2021"
publish = false

[dependencies]
async-session = "=3.0.0"
oauth2 = { version = "=4.4.2", default-features = false, features = ["reqwest", "rustls-tls"] }
uuid = { version = "=1.27.0", features = ["v4"] }
time = "=0.3.55"
axum = "0.7"
axum-extra = { version = "0.9", features = ["typed-header"] }
http = "1"
serde = { version = "1", features = ["derive"] }
serde_json = "1"
sqlx = { version = "0.7", default-features = false, features = ["runtime-tokio", "tls-rustls", "sqlite", "time", "uuid"] }
tokio = { version = "1", features = ["rt-multi-thread", "macros", "net", "time"] }
reqwest = { version = "0.11", default-features = false, features = ["json", "rustls-tls"] }
maud = { version = "0.26", features = ["axum"] }
tower-http = { version = "0.5", features = ["trace"] }
tracing = "0.1"
tracing-subscriber = "0.3"
clap = { version = "4", features = ["derive", "env"] }
dotenvy = "0.15"
async-trait = "0.1"
anyhow = "1"
