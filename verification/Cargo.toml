[package]
name = "webview_proxy"
version = "0.1.0"
edition = "2021"
publish = false

[dependencies]
http = "=1.5.0"
serde = { version = "=1.0.229", features = ["derive"] }
reqwest = { version = "=0.12.28", default-features = false, features = ["rustls-tls", "stream"] }
warp = { version = "=0.4.3", default-features = false, features = ["server"] }
tokio = { version = "=1.53.2", features = ["rt-multi-thread"] }

[dev-dependencies]
urlencoding = "=2.1.3"
