[package]
name = "mtg_proxy"
version = "0.1.0"
edition = "2021"
publish = false

[dependencies]
anyhow = "*"
axum = "*"
image = { version = "=0.25.10", default-features = false, features = ["png"] }
imageproc = "=0.27.0"
lopdf = "=0.45.0"
reqwest = { version = "*", default-features = false, features = ["blocking", "rustls-tls"] }
serde = { version = "*", features = ["derive"] }
serde_json = "*"
tokio = { version = "*", features = ["rt-multi-thread", "macros", "time", "net"] }
unicode-normalization = "=0.1.25"
uuid = { version = "=1.27.0", features = ["serde"] }
