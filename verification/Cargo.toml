[package]
name = "thubook"
version = "0.1.0"
edition = "2021"
publish = false

[dependencies]
image = "=0.25.10"
lopdf = { version = "=0.45.0", features = ["embed_image"] }
rand = "=0.10.3"
clap = "=4.6.7"
reqwest = { version = "=0.12.28", default-features = false, features = ["cookies", "json", "rustls-tls"] }
reqwest_cookie_store = "=0.9.0"
scraper = "=0.27.0"
serde_json = "*"
tokio = { version = "*", features = ["full"] }
tokio-util = { version = "=0.7.19", features = ["rt"] }
