[package]
name = "ttml_db"
version = "0.1.0"
edition = "2021"
publish = false

[dependencies]
anyhow = "=1.0.104"
futures = "=0.3.34"
memmap2 = "=0.9.12"
reqwest = { version = "=0.13.5", default-features = false, features = ["json", "rustls"] }
rkyv = { version = "=0.7.46", features = ["archive_le", "strict", "validation"] }
rustls = { version = "=0.23.46", default-features = false, features = ["std"] }
serde = { version = "=1.0.229", features = ["derive"] }
serde_json = "=1.0.154"
tempfile = "=3.27.0"
tokio = { version = "=1.54.1", features = ["rt-multi-thread", "macros"] }
tracing = "=0.1.44"
ttml_processor = "=0.3.3"
webpki-roots = "*"
zip = { version = "=9.2.2", default-features = false, features = ["deflate"] }
