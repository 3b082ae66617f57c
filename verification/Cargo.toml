[package]
name = "implore"
version = "0.1.0"
edition = "2021"
publish = false

[dependencies]
serde = { version = "1", features = ["derive"] }
serde_json = "1"
crux_core = "*"
crux_http = "*"
crux_kv = "*"
facet = "*"
anyhow = "1"
argon2 = "0.5"
password-hash = { version = "0.5", features = ["rand_core", "getrandom"] }
axum = "*"
tokio = { version = "1", features = ["macros", "rt-multi-thread", "net"] }
tower-http = { version = "*", features = ["cors", "trace"] }
tracing = "0.1"
tracing-subscriber = { version = "0.3", features = ["env-filter"] }
rusqlite = { version = "*", features = ["bundled"] }
rand = "0.8"
uuid = { version = "1", features = ["v4"] }
