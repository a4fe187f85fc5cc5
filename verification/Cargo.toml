[package]
name = "abs_opds"
version = "0.1.0"
edition = "2021"
publish = false

[dependencies]
regex = "=1.13.1"
rayon = "=1.12.0"
unicode-normalization = "=0.1.25"
chrono = "=0.4.45"
anyhow = "=1.0.104"
async-trait = "=0.1.92"
axum = "=0.8.9"
base64 = "=0.23.1"
dotenvy = "=0.15.7"
envy = "=0.4.2"
quick-xml = "=0.42.0"
reqwest = { version = "=0.13.5", default-features = false, features = ["json", "stream"] }
serde = { version = "=1.0.229", features = ["derive"] }
serde_json = "=1.0.151"
sha1_smol = "=1.0.1"
tokio = { version = "=1.53.2", features = ["macros", "rt-multi-thread", "net"] }
tower-http = { version = "=0.6.11", features = ["trace"] }
tracing = "=0.1.44"
tracing-subscriber = { version = "=0.3.23", features = ["env-filter"] }
