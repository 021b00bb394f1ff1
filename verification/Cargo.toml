[package]
name = "ragdb"
version = "0.1.0"
edition = "2021"
publish = false

[dependencies]
text-splitter = "=0.33.0"
hora = "=0.1.1"
rusqlite = "=0.41.0"
serde = { version = "=1.0.229", features = ["derive"] }
toml = "=1.1.8"
anyhow = "=1.0.104"
rayon = "=1.12.0"
clap = { version = "=4.6.7", features = ["derive"] }
tokio = { version = "=1.54.1", features = ["rt-multi-thread", "macros", "net"] }
axum = "=0.7.9"
tower = "=0.4.13"
tower-http = { version = "=0.5.2", features = ["cors"] }
http = "=1.5.0"
async-lock = "=3.4.2"
zip = { version = "=9.1.0", default-features = false, features = ["deflate"] }
quick-xml = "=0.22.0"
minidom = "=0.19.0"
lopdf = "=0.46.0"
pdf-extract = "=0.12.1"
fastembed = { version = "=3.14.1", default-features = false, features = ["online", "ort-load-dynamic"] }
ort-sys = "=2.0.0-rc.4"
