[package]
name = "vgindex"
version = "0.1.0"
edition = "2021"
publish = false

[dependencies]
axum = { version = "=0.8.9", default-features = false, features = ["form", "query", "json", "tokio", "http1"] }
axum-extra = { version = "=0.12.6", default-features = false, features = ["form"] }
chrono = { version = "=0.4.45", default-features = false, features = ["std", "clock", "serde"] }
futures-util = { version = "=0.3.34", default-features = false, features = ["std"] }
hex = "=0.4.3"
lindera = { version = "=2.3.4", default-features = false }
pinyin = "=0.11.0"
reqwest = { version = "=0.12.28", default-features = false }
roxmltree = "=0.21.2"
serde = { version = "=1.0.229", features = ["derive"] }
serde_json = "=1.0.154"
sha2 = "=0.10.9"
sqlx = { version = "=0.8.6", default-features = false, features = ["postgres", "sqlite", "runtime-tokio", "chrono", "json", "macros"] }
thiserror = "=2.0.21"
tokio = { version = "=1.54.1", features = ["rt", "sync", "time", "fs", "macros"] }
tracing = "=0.1.44"
urlencoding = "=2.1.3"
uuid = { version = "=1.29.0", features = ["v4"] }
zip = { version = "=2.6.1", default-features = false, features = ["deflate"] }
zstd = { version = "=0.13.4", default-features = false }
