[package]
name = "docufind"
version = "0.1.0"
edition = "2021"
publish = false

[dependencies]
cfb = "=0.15.0"
chrono = { version = "=0.4.45", features = ["serde"] }
encoding_rs = "=0.8.42"
notify = "=8.2.1"
opener = "=0.9.0"
pdf-extract = "=0.12.1"
quick-xml = "=0.37.5"
rayon = "=1.12.0"
rusqlite = { version = "=0.41.0", features = ["bundled"] }
serde = { version = "=1.0.229", features = ["derive"] }
serde_json = "=1.0.154"
tantivy = "=0.27.0"
trash = "=5.2.9"
walkdir = "=2.5.0"
zip = { version = "=9.1.0", default-features = false, features = ["deflate"] }

[dev-dependencies]
regex = "=1.13.1"
