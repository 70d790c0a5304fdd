[package]
name = "wxyc_etl"
version = "0.1.0"
edition = "2021"
publish = false

[dependencies]
anyhow = "1"
clap = { version = "4", features = ["derive"] }
crossbeam-channel = "0.5"
csv = "1"
deunicode = "1"
log = "0.4"
memchr = "2"
memmap2 = "0.9"
postgres = "0.19"
rayon = "1"
rusqlite = { version = "*", features = ["bundled"] }
sentry = { version = "*", default-features = false, features = ["backtrace", "contexts", "panic"] }
sentry-tracing = "*"
serde = { version = "1", features = ["derive"] }
serde_json = "1"
strsim = "0.11"
thiserror = "1"
tracing = "0.1"
tracing-log = "0.2"
tracing-subscriber = { version = "0.3", features = ["json", "env-filter"] }
unicode-normalization = "0.1"
unicode_categories = "0.1"
uuid = { version = "1", features = ["v4"] }
