[package]
name = "coin_portfolio"
version = "0.1.0"
edition = "2021"
publish = false

[dependencies]
hyper = { version = "0.14", features = ["client", "http1", "tcp"] }
hyper-tls = "0.5"
mysql = { version = "25", default-features = false, features = ["minimal"] }
rand = "=0.4.6"
regex = "=1.13.1"
rocket = { version = "0.5", features = ["json"] }
rust-crypto = "=0.2.36"
rustc-serialize = "=0.3.25"
serde_json = "=1.0.154"
sha1 = "=0.6.1"
time = "=0.1.45"
tokio = { version = "1", features = ["rt", "time"] }
toml = "=0.4.10"
uuid = { version = "=0.6.5", features = ["v4"] }
