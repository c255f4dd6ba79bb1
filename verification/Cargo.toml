[package]
name = "mousehole"
version = "0.5.0"
edition = "2021"
publish = false

[dependencies]
axum = "0.8"
base64 = "0.22"
cookie = "0.18"
futures = { version = "0.3", default-features = false, features = ["alloc"] }
jiff = { version = "0.2", features = ["tzdb-bundle-always"] }
mime_guess = "2"
percent-encoding = "2"
rand = "0.9"
reqwest = { version = "0.12", default-features = false, features = ["rustls-tls"] }
rust-embed = "8"
serde_json = { version = "1", features = ["preserve_order"] }
subtle = "2"
thiserror = "2"
tokio = { version = "1", features = ["rt", "macros", "net", "sync", "time", "signal"] }
url = "2"
